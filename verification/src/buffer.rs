//! GPU-resident buffers, uploaded once through a host-visible staging buffer
//! and a one-shot command buffer, blocking until the upload completes.

use vstd::prelude::*;

use crate::device::Device;
use crate::driver::{budget_minus, Driver, LiveEntry};
use crate::handles::{DriverError, DriverOp, Handle, HandleKind};

verus! {

/// What a buffer holds.
#[derive(Clone, Copy, PartialEq, Eq, Structural, Debug)]
pub enum BufferType {
    Vertex,
    Index,
}

/// A device-local buffer and the bytes it holds. The contents are part of
/// the model: the unverified layer keeps the same bytes in driver memory.
pub struct Buffer {
    /// The device-local buffer handle.
    pub handle: Handle,
    pub buffer_type: BufferType,
    /// Size of one element in bytes.
    pub element_size: u64,
    /// Number of elements; zero for an empty upload.
    pub element_count: u64,
    /// The uploaded bytes.
    pub data: Vec<u8>,
}

/// Copy a byte vector element by element.
fn copy_bytes(src: &Vec<u8>) -> (r: Vec<u8>)
    ensures
        r@ == src@,
{
    let mut r: Vec<u8> = Vec::new();
    let n = src.len();
    let mut i: usize = 0;
    while i < n
        invariant
            n == src@.len(),
            0 <= i <= n,
            r@ == src@.subrange(0, i as int),
        decreases n - i,
    {
        r.push(src[i]);
        proof {
            assert(r@ =~= src@.subrange(0, i + 1 as int));
        }
        i = i + 1;
    }
    proof {
        assert(src@.subrange(0, n as int) =~= src@);
    }
    r
}

impl Buffer {
    /// Well-formedness against a driver state: the handle is live and the
    /// element count matches the contents.
    pub open spec fn wf(self, d: Driver) -> bool {
        &&& d.has_entry(LiveEntry { handle: self.handle, kind: HandleKind::Buffer, parent: 0 })
        &&& self.element_size >= 1
        &&& self.data@.len() == self.element_count * self.element_size
    }

    /// The driver calls an upload makes, in order: create the staging
    /// buffer, create the device-local buffer, record and submit a one-shot
    /// copy, wait for it, free the one-shot command buffer, destroy the
    /// staging buffer. `s` is the first handle issued.
    pub open spec fn upload_ops(s: Handle, queue: Handle) -> Seq<DriverOp> {
        seq![
            DriverOp::Create(HandleKind::Buffer, s),
            DriverOp::Create(HandleKind::Buffer, (s + 1) as u64),
            DriverOp::Create(HandleKind::CommandBuffer, (s + 2) as u64),
            DriverOp::BeginCommandBuffer((s + 2) as u64),
            DriverOp::EndCommandBuffer((s + 2) as u64),
            DriverOp::QueueSubmit {
                queue,
                command_buffer: (s + 2) as u64,
                wait_semaphore: Option::None,
                wait_stage: Option::None,
                signal_semaphore: Option::None,
            },
            DriverOp::WaitIdle,
            DriverOp::Destroy(HandleKind::CommandBuffer, (s + 2) as u64),
            DriverOp::Destroy(HandleKind::Buffer, s),
        ]
    }

    /// Allocate a device-local buffer holding `data`, uploaded through a
    /// staging buffer and a one-shot command buffer on `queue`, blocking
    /// until the upload completes. An empty input yields a buffer of zero
    /// element count, with no driver error.
    ///
    /// Fails exactly when the driver cannot complete the three creations the
    /// upload makes (staging, device-local, one-shot command buffer); on
    /// failure nothing is created.
    #[verifier::rlimit(100)]
    #[verifier::spinoff_prover]
    pub fn new_buffer_with_data(
        driver: &mut Driver,
        device: &Device,
        data: &Vec<u8>,
        element_size: u64,
        buffer_type: BufferType,
        command_pool: Handle,
        queue: Handle,
    ) -> (r: Result<Buffer, DriverError>)
        requires
            old(driver).inv(),
            old(driver).is_live(device.handle),
            old(driver).is_live(command_pool),
            old(driver).is_live(queue),
            element_size >= 1,
            data@.len() % (element_size as nat) == 0,
        ensures
            final(driver).inv(),
            (r matches Ok(b) <==> old(driver).can_create(3)),
            (r matches Err(e) ==> e == DriverError::OutOfMemory && *final(driver) == *old(driver)),
            (r matches Ok(b) ==> {
                &&& b.data@ == data@
                &&& b.buffer_type == buffer_type
                &&& b.element_size == element_size
                &&& b.element_count == data@.len() / (element_size as nat)
                &&& b.handle == old(driver).next + 1
                &&& b.wf(*final(driver))
                &&& final(driver).trace@ == old(driver).trace@ + Self::upload_ops(
                    old(driver).next,
                    queue,
                )
                &&& final(driver).next == old(driver).next + 3
                &&& final(driver).budget == budget_minus(old(driver).budget, 3)
                &&& final(driver).same_platform(*old(driver))
                &&& forall|e: LiveEntry|
                    #[trigger] final(driver).has_entry(e) <==> (old(driver).has_entry(e) || e
                        == LiveEntry { handle: b.handle, kind: HandleKind::Buffer, parent: 0 })
                &&& forall|x: Handle|
                    final(driver).is_live(x) <==> (old(driver).is_live(x) || x == b.handle)
            }),
    {
        if !driver.can_alloc(3) {
            return Err(DriverError::OutOfMemory);
        }
        let ghost d0 = *driver;
        let staging = driver.allocate(HandleKind::Buffer, 0);
        let device_local = driver.allocate(HandleKind::Buffer, 0);
        let one_shot = driver.allocate(HandleKind::CommandBuffer, command_pool);
        let ghost d3 = *driver;
        driver.begin_command_buffer(one_shot);
        driver.end_command_buffer(one_shot);
        driver.queue_submit(queue, one_shot, Option::None, Option::None, Option::None);
        driver.wait_idle();
        let ghost d4 = *driver;
        proof {
            assert(d4.has_entry(LiveEntry {
                handle: one_shot,
                kind: HandleKind::CommandBuffer,
                parent: command_pool,
            })) by {
                assert(d3.live@[d0.live@.len() as int + 2] == LiveEntry {
                    handle: one_shot,
                    kind: HandleKind::CommandBuffer,
                    parent: command_pool,
                });
            }
        }
        driver.destroy(HandleKind::CommandBuffer, one_shot);
        let ghost d5 = *driver;
        proof {
            assert(d5.has_entry(LiveEntry { handle: staging, kind: HandleKind::Buffer, parent: 0 }))
                by {
                assert(d3.live@[d0.live@.len() as int] == LiveEntry {
                    handle: staging,
                    kind: HandleKind::Buffer,
                    parent: 0,
                });
            }
            let se = LiveEntry { handle: staging, kind: HandleKind::Buffer, parent: 0 };
            driver.lemma_has_entry_is_live(se);
        }
        driver.destroy(HandleKind::Buffer, staging);
        let element_count = (data.len() as u64) / element_size;
        let contents = copy_bytes(data);
        let b = Buffer {
            handle: device_local,
            buffer_type,
            element_size,
            element_count,
            data: contents,
        };
        proof {
            vstd::arithmetic::div_mod::lemma_fundamental_div_mod(
                data@.len() as int,
                element_size as int,
            );
            let de = LiveEntry { handle: device_local, kind: HandleKind::Buffer, parent: 0 };
            assert(driver.trace@ =~= d0.trace@ + Self::upload_ops(d0.next, queue));
            assert(d3.live@[d0.live@.len() as int + 1] == de);
            assert forall|e: LiveEntry| #[trigger] driver.has_entry(e) implies (d0.has_entry(e)
                || e == de) by {
                if d3.has_entry(e) {
                    let idx = choose|idx: int| 0 <= idx < d3.live@.len() && d3.live@[idx] == e;
                    if idx < d0.live@.len() {
                        assert(d0.live@[idx] == e);
                    }
                }
            }
            assert forall|e: LiveEntry| (d0.has_entry(e) || e == de) implies #[trigger] driver
                .has_entry(e) by {
                if d0.has_entry(e) {
                    d0.lemma_live_entry_bounds(e);
                    let idx = choose|idx: int| 0 <= idx < d0.live@.len() && d0.live@[idx] == e;
                    assert(d3.live@[idx] == e);
                }
            }
            assert forall|x: Handle| #[trigger] driver.is_live(x) implies (d0.is_live(x) || x
                == device_local) by {
                driver.lemma_is_live_entry(x);
                let e = choose|e: LiveEntry| #[trigger] driver.has_entry(e) && e.handle == x;
                if d0.has_entry(e) {
                    d0.lemma_has_entry_is_live(e);
                }
            }
            assert forall|x: Handle| (d0.is_live(x) || x == device_local) implies #[trigger] driver
                .is_live(x) by {
                if d0.is_live(x) {
                    d0.lemma_is_live_entry(x);
                    let e = choose|e: LiveEntry| #[trigger] d0.has_entry(e) && e.handle == x;
                    driver.lemma_has_entry_is_live(e);
                } else {
                    driver.lemma_has_entry_is_live(de);
                }
            }
        }
        proof {
            assert(b.data@ == data@);
            assert(b.element_count == data@.len() / (element_size as nat));
            assert(b.handle == old(driver).next + 1);
            assert(driver.has_entry(LiveEntry { handle: b.handle, kind: HandleKind::Buffer, parent: 0 }));
            assert(b.data@.len() == b.element_count * b.element_size) by {
                let len = data@.len() as int;
                let es = element_size as int;
                vstd::arithmetic::div_mod::lemma_fundamental_div_mod(len, es);
                assert(len % es == 0);
                assert(len == es * (len / es));
                assert(es * (len / es) == (len / es) * es) by (nonlinear_arith);
            }
            assert(b.wf(*driver));
            assert(driver.trace@ == old(driver).trace@ + Self::upload_ops(
                old(driver).next,
                queue,
            ));
            assert(driver.next == old(driver).next + 3);
            assert(driver.budget == budget_minus(old(driver).budget, 3));
            assert(driver.same_platform(*old(driver)));
        }
        Ok(b)
    }

    /// Number of elements in the buffer.
    pub fn element_count(&self) -> (n: u64)
        ensures
            n == self.element_count,
    {
        self.element_count
    }

    /// The raw buffer handle.
    pub fn buffer(&self) -> (h: Handle)
        ensures
            h == self.handle,
    {
        self.handle
    }

    /// Read the buffer's contents back through the staging path: a staging
    /// buffer and a one-shot command buffer are created and released again,
    /// and the returned bytes equal the uploaded ones exactly.
    ///
    /// Fails exactly when the driver cannot complete the two creations; on
    /// failure nothing is created.
    #[verifier::rlimit(100)]
    pub fn read_back(&self, driver: &mut Driver, command_pool: Handle, queue: Handle) -> (r: Result<
        Vec<u8>,
        DriverError,
    >)
        requires
            old(driver).inv(),
            self.wf(*old(driver)),
            old(driver).is_live(command_pool),
            old(driver).is_live(queue),
        ensures
            final(driver).inv(),
            (r matches Ok(v) <==> old(driver).can_create(2)),
            (r matches Err(e) ==> e == DriverError::OutOfMemory && *final(driver) == *old(driver)),
            (r matches Ok(v) ==> {
                &&& v@ == self.data@
                &&& final(driver).next == old(driver).next + 2
                &&& final(driver).budget == budget_minus(old(driver).budget, 2)
                &&& final(driver).same_platform(*old(driver))
                &&& forall|e: LiveEntry|
                    #[trigger] final(driver).has_entry(e) <==> old(driver).has_entry(e)
            }),
    {
        if !driver.can_alloc(2) {
            return Err(DriverError::OutOfMemory);
        }
        let ghost d0 = *driver;
        let staging = driver.allocate(HandleKind::Buffer, 0);
        let one_shot = driver.allocate(HandleKind::CommandBuffer, command_pool);
        let ghost d2 = *driver;
        driver.begin_command_buffer(one_shot);
        driver.end_command_buffer(one_shot);
        driver.queue_submit(queue, one_shot, Option::None, Option::None, Option::None);
        driver.wait_idle();
        proof {
            assert(driver.has_entry(LiveEntry {
                handle: one_shot,
                kind: HandleKind::CommandBuffer,
                parent: command_pool,
            })) by {
                assert(d2.live@[d0.live@.len() as int + 1] == LiveEntry {
                    handle: one_shot,
                    kind: HandleKind::CommandBuffer,
                    parent: command_pool,
                });
            }
        }
        driver.destroy(HandleKind::CommandBuffer, one_shot);
        proof {
            assert(driver.has_entry(LiveEntry {
                handle: staging,
                kind: HandleKind::Buffer,
                parent: 0,
            })) by {
                assert(d2.live@[d0.live@.len() as int] == LiveEntry {
                    handle: staging,
                    kind: HandleKind::Buffer,
                    parent: 0,
                });
            }
            let se = LiveEntry { handle: staging, kind: HandleKind::Buffer, parent: 0 };
            driver.lemma_has_entry_is_live(se);
        }
        driver.destroy(HandleKind::Buffer, staging);
        let contents = copy_bytes(&self.data);
        proof {
            assert forall|e: LiveEntry| #[trigger] driver.has_entry(e) implies d0.has_entry(e) by {
                if d2.has_entry(e) {
                    let idx = choose|idx: int| 0 <= idx < d2.live@.len() && d2.live@[idx] == e;
                    if idx < d0.live@.len() {
                        assert(d0.live@[idx] == e);
                    }
                }
            }
            assert forall|e: LiveEntry| d0.has_entry(e) implies #[trigger] driver.has_entry(e) by {
                d0.lemma_live_entry_bounds(e);
                let idx = choose|idx: int| 0 <= idx < d0.live@.len() && d0.live@[idx] == e;
                assert(d2.live@[idx] == e);
            }
        }
        Ok(contents)
    }

    /// Destroy the device-local buffer handle.
    pub fn destroy(&self, driver: &mut Driver)
        requires
            old(driver).inv(),
            old(driver).is_live(self.handle),
        ensures
            final(driver).inv(),
            final(driver).trace@ == old(driver).trace@.push(
                DriverOp::Destroy(HandleKind::Buffer, self.handle),
            ),
            final(driver).next == old(driver).next,
            final(driver).budget == old(driver).budget,
            final(driver).same_platform(*old(driver)),
            !final(driver).is_live(self.handle),
            forall|e: LiveEntry|
                #[trigger] final(driver).has_entry(e) <==> (old(driver).has_entry(e) && e.handle
                    != self.handle && e.parent != self.handle),
    {
        driver.destroy(HandleKind::Buffer, self.handle);
    }
}

} // verus!
