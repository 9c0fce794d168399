//! The GPU-resident state of one drawable entity: its vertex and index
//! buffers and one recorded command buffer per swapchain framebuffer.

use vstd::prelude::*;

use crate::buffer::{Buffer, BufferType};
use crate::driver::{budget_minus, run_entries, Driver, LiveEntry};
use crate::engine::VulkanRenderingEngine;
use crate::handles::{CommandBufferLevel, DriverError, Handle, HandleKind, RenderError};
use crate::scene::RenderObject;
use crate::swapchain::SwapChain;

verus! {

/// What one recorded primary command buffer contains: begin the render pass
/// over one framebuffer with the saved clear value, bind the pipeline, bind
/// the vertex buffer at offset 0, bind the index buffer (32-bit indices) at
/// offset 0, draw indexed over the full index count as a single instance.
#[derive(Clone, Copy, PartialEq, Eq, Structural, Debug)]
pub struct RecordedCommandBuffer {
    /// The command buffer handle, allocated from the engine's pool.
    pub handle: Handle,
    /// The level the buffer was allocated at; the engine records primary
    /// buffers only.
    pub level: CommandBufferLevel,
    /// The framebuffer the render pass is begun over.
    pub framebuffer: Handle,
    /// The render pass begun.
    pub render_pass: Handle,
    /// The graphics pipeline bound.
    pub pipeline: Handle,
    /// The vertex buffer bound at offset 0.
    pub vertex_buffer: Handle,
    /// The index buffer bound at offset 0 (32-bit indices).
    pub index_buffer: Handle,
    /// The full index count, drawn as a single instance.
    pub index_count: u64,
    /// The render area, matching the swapchain extent.
    pub extent_width: u32,
    pub extent_height: u32,
    /// The clear color: opaque black, full alpha.
    pub clear_red: u8,
    pub clear_green: u8,
    pub clear_blue: u8,
    pub clear_alpha: u8,
}

/// The GPU-resident component of one drawable entity.
pub struct VulkanRenderObject {
    pub vertex_buffer: Buffer,
    pub index_buffer: Buffer,
    /// One recorded command buffer per swapchain framebuffer; dropped and
    /// rebuilt whenever the swapchain is rebuilt.
    pub command_buffers: Vec<RecordedCommandBuffer>,
}

impl VulkanRenderObject {
    /// Well-formedness against a driver state: both buffers live, every
    /// command buffer live and owned by `pool`, distinct, and recorded over
    /// this object's buffers.
    pub open spec fn wf(self, d: Driver, pool: Handle) -> bool {
        &&& self.vertex_buffer.wf(d)
        &&& self.index_buffer.wf(d)
        &&& self.vertex_buffer.buffer_type == BufferType::Vertex
        &&& self.index_buffer.buffer_type == BufferType::Index
        &&& self.index_buffer.element_size == 4
        &&& self.vertex_buffer.handle != self.index_buffer.handle
        &&& forall|k: int|
            0 <= k < self.command_buffers@.len() ==> d.has_entry(
                LiveEntry {
                    handle: (#[trigger] self.command_buffers@[k]).handle,
                    kind: HandleKind::CommandBuffer,
                    parent: pool,
                },
            )
        &&& forall|a: int, b: int|
            0 <= a < b < self.command_buffers@.len() ==> (#[trigger] self.command_buffers@[a]).handle
                != (#[trigger] self.command_buffers@[b]).handle
        &&& forall|k: int|
            0 <= k < self.command_buffers@.len() ==> (#[trigger] self.command_buffers@[k]).vertex_buffer
                == self.vertex_buffer.handle && self.command_buffers@[k].index_buffer
                == self.index_buffer.handle && self.command_buffers@[k].index_count
                == self.index_buffer.element_count && self.command_buffers@[k].level
                == CommandBufferLevel::Primary
    }

    /// The command buffers are recorded against this swapchain: one per
    /// framebuffer, in order, over its pipeline, render pass and extent.
    pub open spec fn matches_swapchain(self, sc: SwapChain) -> bool {
        &&& self.command_buffers@.len() == sc.framebuffers@.len()
        &&& forall|k: int|
            0 <= k < self.command_buffers@.len() ==> (#[trigger] self.command_buffers@[k]).framebuffer
                == sc.framebuffers@[k] && self.command_buffers@[k].pipeline == sc.pipeline
                && self.command_buffers@[k].render_pass == sc.render_pass
                && self.command_buffers@[k].extent_width == sc.extent_width
                && self.command_buffers@[k].extent_height == sc.extent_height
    }

    /// Create the GPU-resident state for one drawable: upload its vertex and
    /// index data to device-local buffers and record one command buffer per
    /// swapchain framebuffer.
    ///
    /// Fails exactly when the driver cannot complete the creations the
    /// upload and recording make; on failure nothing is created.
    #[verifier::rlimit(100)]
    #[verifier::spinoff_prover]
    pub fn new(engine: &VulkanRenderingEngine, driver: &mut Driver, data: &RenderObject) -> (r:
        Result<VulkanRenderObject, RenderError>)
        requires
            old(driver).inv(),
            engine.wf(*old(driver)),
            engine.swapchain matches Option::Some(osc),
            data.wf(),
        ensures
            final(driver).inv(),
            engine.wf(*final(driver)),
            (r matches Ok(o) <==> old(driver).can_create(
                6 + (engine.swapchain->Some_0).framebuffers@.len(),
            )),
            (r matches Err(e) ==> e == RenderError::Driver(DriverError::OutOfMemory)
                && *final(driver) == *old(driver)),
            (r matches Ok(o) ==> {
                let sc = engine.swapchain->Some_0;
                let n = sc.framebuffers@.len();
                &&& o.wf(*final(driver), engine.command_pool)
                &&& o.matches_swapchain(sc)
                &&& o.vertex_buffer.data@ == data.vertex_data@
                &&& o.vertex_buffer.element_size == data.vertex_size
                &&& o.index_buffer.data@ == data.index_data@
                &&& o.index_buffer.element_size == 4
                &&& o.index_buffer.element_count == data.index_data@.len() / 4
                &&& o.command_buffers@.len() == n
                &&& final(driver).next == old(driver).next + 6 + n
                &&& final(driver).budget == budget_minus(old(driver).budget, 6 + n)
                &&& final(driver).same_platform(*old(driver))
                &&& forall|e: LiveEntry|
                    #[trigger] final(driver).has_entry(e) <==> (old(driver).has_entry(e) || e
                        == (LiveEntry {
                        handle: o.vertex_buffer.handle,
                        kind: HandleKind::Buffer,
                        parent: 0,
                    }) || e == (LiveEntry {
                        handle: o.index_buffer.handle,
                        kind: HandleKind::Buffer,
                        parent: 0,
                    }) || run_entries(
                        HandleKind::CommandBuffer,
                        engine.command_pool,
                        (old(driver).next + 6) as u64,
                        n,
                    ).contains(e))
            }),
    {
        let n: u64 = match &engine.swapchain {
            Option::Some(sc) => sc.framebuffers.len() as u64,
            Option::None => {
                proof {
                    assert(false);
                }
                0
            },
        };
        if n > u64::MAX - 6 {
            proof {
                assert(!old(driver).can_create((6 + n) as nat));
            }
            return Err(RenderError::Driver(DriverError::OutOfMemory));
        }
        if !driver.can_alloc(6 + n) {
            return Err(RenderError::Driver(DriverError::OutOfMemory));
        }
        let ghost d0 = *driver;
        let vb_r = engine.create_buffer(driver, BufferType::Vertex, &data.vertex_data,
            data.vertex_size);
        let vertex_buffer = match vb_r {
            Ok(b) => b,
            Err(_) => {
                proof {
                    assert(false);
                }
                return Err(RenderError::Driver(DriverError::OutOfMemory));
            },
        };
        let ib_r = engine.create_buffer(driver, BufferType::Index, &data.index_data, 4);
        let index_buffer = match ib_r {
            Ok(b) => b,
            Err(_) => {
                proof {
                    assert(false);
                }
                return Err(RenderError::Driver(DriverError::OutOfMemory));
            },
        };
        let ghost d2 = *driver;
        let cb_r = engine.create_command_buffers(driver, &vertex_buffer, &index_buffer);
        let command_buffers = match cb_r {
            Ok(cbs) => cbs,
            Err(_) => {
                proof {
                    assert(false);
                }
                return Err(RenderError::Driver(DriverError::OutOfMemory));
            },
        };
        let o = VulkanRenderObject { vertex_buffer, index_buffer, command_buffers };
        proof {
            let sc = engine.swapchain->Some_0;
            let nn = sc.framebuffers@.len();
            let ve = LiveEntry { handle: o.vertex_buffer.handle, kind: HandleKind::Buffer, parent: 0 };
            let ie = LiveEntry { handle: o.index_buffer.handle, kind: HandleKind::Buffer, parent: 0 };
            assert(driver.has_entry(ve));
            assert(driver.has_entry(ie));
            assert(run_entries(HandleKind::CommandBuffer, engine.command_pool, d2.next, nn)
                =~= run_entries(
                HandleKind::CommandBuffer,
                engine.command_pool,
                (d0.next + 6) as u64,
                nn,
            ));
        }
        Ok(o)
    }

    /// The recorded command buffers, for submission.
    pub fn command_buffers(&self) -> (cbs: &Vec<RecordedCommandBuffer>)
        ensures
            cbs@ == self.command_buffers@,
    {
        &self.command_buffers
    }
}

} // verus!
