//! The device handle: a wrapper owning one logical GPU device connection and
//! exposing the capability-scoped factory and queue operations the rest of
//! the engine is built on.
//!
//! Every object created from the device borrows it (shared ownership in the
//! engine's object graph), so the device is destroyed last, after every
//! dependent handle has been released.

use vstd::prelude::*;

use crate::driver::{budget_minus, destroy_ops, ledger_reset, run_entries, Driver, LiveEntry};
use crate::handles::{CommandBufferLevel, DriverError, DriverOp, Handle, HandleKind,
    PipelineStage};

verus! {

/// The configuration a command pool is created with.
#[derive(Clone, Copy, PartialEq, Eq, Structural, Debug)]
pub struct CommandPoolCreateInfo {
    pub transient: bool,
    pub reset_command_buffer: bool,
    pub queue_family_index: u32,
}

/// A logical GPU device connection, the instance and physical device it was
/// created from, and the queue family it was created for.
pub struct Device {
    /// The driver handle of the logical device.
    pub handle: Handle,
    /// The instance the device was created from (borrowed, not owned).
    pub instance: Handle,
    /// The index of the physical device the connection was opened on.
    pub physical_device_index: usize,
    /// The queue family index the device's queues come from.
    pub queue_family_index: u32,
}

impl Device {
    /// Whether the logical device connection is still live.
    pub open spec fn alive(self, d: Driver) -> bool {
        d.has_entry(LiveEntry { handle: self.handle, kind: HandleKind::Device, parent: 0 })
    }

    /// Create the logical device for a physical device's queue family.
    /// Device creation failure is a non-recoverable startup condition, so
    /// the driver is required to complete it.
    pub fn new(driver: &mut Driver, instance: Handle, physical_device_index: usize,
        queue_family_index: u32) -> (dev: Device)
        requires
            old(driver).inv(),
            old(driver).is_live(instance),
            old(driver).can_create(1),
        ensures
            final(driver).inv(),
            dev.alive(*final(driver)),
            dev.instance == instance,
            dev.physical_device_index == physical_device_index,
            dev.queue_family_index == queue_family_index,
            dev.handle == old(driver).next,
            final(driver).live@ == old(driver).live@.push(
                LiveEntry { handle: dev.handle, kind: HandleKind::Device, parent: 0 },
            ),
            final(driver).trace@ == old(driver).trace@.push(
                DriverOp::Create(HandleKind::Device, dev.handle),
            ),
            final(driver).next == old(driver).next + 1,
            final(driver).budget == budget_minus(old(driver).budget, 1),
            final(driver).same_platform(*old(driver)),
            forall|x: Handle|
                final(driver).is_live(x) <==> (old(driver).is_live(x) || x == dev.handle),
    {
        let handle = driver.allocate(HandleKind::Device, 0);
        proof {
            assert(driver.live@[driver.live@.len() - 1] == LiveEntry {
                handle,
                kind: HandleKind::Device,
                parent: 0,
            });
        }
        Device { handle, instance, physical_device_index, queue_family_index }
    }

    /// The raw device handle.
    pub fn vk_device(&self) -> (h: Handle)
        ensures
            h == self.handle,
    {
        self.handle
    }

    /// Retrieve a device queue; the driver owns it through the device, so it
    /// is released with the device and never destroyed explicitly.
    #[allow(unused_variables)]
    pub fn get_device_queue(&self, driver: &mut Driver, queue_family_index: u32,
        queue_index: u32) -> (q: Handle)
        requires
            old(driver).inv(),
            old(driver).is_live(self.handle),
            old(driver).can_create(1),
        ensures
            final(driver).inv(),
            q == old(driver).next,
            final(driver).live@ == old(driver).live@.push(
                LiveEntry { handle: q, kind: HandleKind::Queue, parent: self.handle },
            ),
            final(driver).trace@ == old(driver).trace@.push(
                DriverOp::Create(HandleKind::Queue, q),
            ),
            final(driver).next == old(driver).next + 1,
            final(driver).budget == budget_minus(old(driver).budget, 1),
            final(driver).same_platform(*old(driver)),
            final(driver).is_live(self.handle),
            forall|x: Handle| final(driver).is_live(x) <==> (old(driver).is_live(x) || x == q),
    {
        driver.allocate(HandleKind::Queue, self.handle)
    }

    /// Create a command pool; fails exactly when the driver cannot allocate.
    #[allow(unused_variables)]
    pub fn create_command_pool(&self, driver: &mut Driver, create_info: &CommandPoolCreateInfo)
        -> (r: Result<Handle, DriverError>)
        requires
            old(driver).inv(),
            old(driver).is_live(self.handle),
        ensures
            final(driver).inv(),
            (r matches Ok(h) <==> old(driver).can_create(1)),
            (r matches Err(e) ==> e == DriverError::OutOfMemory && *final(driver) == *old(driver)),
            (r matches Ok(h) ==> {
                &&& h == old(driver).next
                &&& final(driver).live@ == old(driver).live@.push(
                    LiveEntry { handle: h, kind: HandleKind::CommandPool, parent: 0 },
                )
                &&& final(driver).trace@ == old(driver).trace@.push(
                    DriverOp::Create(HandleKind::CommandPool, h),
                )
                &&& final(driver).next == old(driver).next + 1
                &&& final(driver).budget == budget_minus(old(driver).budget, 1)
                &&& final(driver).same_platform(*old(driver))
                &&& forall|x: Handle|
                    final(driver).is_live(x) <==> (old(driver).is_live(x) || x == h)
            }),
    {
        if !driver.can_alloc(1) {
            return Err(DriverError::OutOfMemory);
        }
        Ok(driver.allocate(HandleKind::CommandPool, 0))
    }

    /// Create a descriptor pool; fails exactly when the driver cannot
    /// allocate.
    #[allow(unused_variables)]
    pub fn create_descriptor_pool(&self, driver: &mut Driver, max_sets: u32) -> (r: Result<
        Handle,
        DriverError,
    >)
        requires
            old(driver).inv(),
            old(driver).is_live(self.handle),
        ensures
            final(driver).inv(),
            (r matches Ok(h) <==> old(driver).can_create(1)),
            (r matches Err(e) ==> e == DriverError::OutOfMemory && *final(driver) == *old(driver)),
            (r matches Ok(h) ==> {
                &&& h == old(driver).next
                &&& final(driver).live@ == old(driver).live@.push(
                    LiveEntry { handle: h, kind: HandleKind::DescriptorPool, parent: 0 },
                )
                &&& final(driver).trace@ == old(driver).trace@.push(
                    DriverOp::Create(HandleKind::DescriptorPool, h),
                )
                &&& final(driver).next == old(driver).next + 1
                &&& final(driver).budget == budget_minus(old(driver).budget, 1)
                &&& final(driver).same_platform(*old(driver))
                &&& forall|x: Handle|
                    final(driver).is_live(x) <==> (old(driver).is_live(x) || x == h)
            }),
    {
        if !driver.can_alloc(1) {
            return Err(DriverError::OutOfMemory);
        }
        Ok(driver.allocate(HandleKind::DescriptorPool, 0))
    }

    /// Create a descriptor set layout; fails exactly when the driver cannot
    /// allocate.
    #[allow(unused_variables)]
    pub fn create_descriptor_set_layout(&self, driver: &mut Driver, binding_count: u32) -> (r:
        Result<Handle, DriverError>)
        requires
            old(driver).inv(),
            old(driver).is_live(self.handle),
        ensures
            final(driver).inv(),
            (r matches Ok(h) <==> old(driver).can_create(1)),
            (r matches Err(e) ==> e == DriverError::OutOfMemory && *final(driver) == *old(driver)),
            (r matches Ok(h) ==> {
                &&& h == old(driver).next
                &&& final(driver).live@ == old(driver).live@.push(
                    LiveEntry { handle: h, kind: HandleKind::DescriptorSetLayout, parent: 0 },
                )
                &&& final(driver).trace@ == old(driver).trace@.push(
                    DriverOp::Create(HandleKind::DescriptorSetLayout, h),
                )
                &&& final(driver).next == old(driver).next + 1
                &&& final(driver).budget == budget_minus(old(driver).budget, 1)
                &&& final(driver).same_platform(*old(driver))
                &&& forall|x: Handle|
                    final(driver).is_live(x) <==> (old(driver).is_live(x) || x == h)
            }),
    {
        if !driver.can_alloc(1) {
            return Err(DriverError::OutOfMemory);
        }
        Ok(driver.allocate(HandleKind::DescriptorSetLayout, 0))
    }

    /// Allocate descriptor sets from a pool; the pool owns them, so a pool
    /// reset or destroy releases them. Fails exactly when the driver cannot
    /// complete all the allocations, in which case nothing is allocated.
    pub fn allocate_descriptor_sets(&self, driver: &mut Driver, pool: Handle, count: u64) -> (r:
        Result<Vec<Handle>, DriverError>)
        requires
            old(driver).inv(),
            old(driver).is_live(self.handle),
            old(driver).is_live(pool),
        ensures
            final(driver).inv(),
            (r matches Ok(hs) <==> old(driver).can_create(count as nat)),
            (r matches Err(e) ==> e == DriverError::OutOfMemory && *final(driver) == *old(driver)),
            (r matches Ok(hs) ==> {
                &&& hs@.len() == count
                &&& forall|j: int| 0 <= j < count ==> hs@[j] == old(driver).next + j
                &&& final(driver).live@ == old(driver).live@ + run_entries(
                    HandleKind::DescriptorSet,
                    pool,
                    old(driver).next,
                    count as nat,
                )
                &&& final(driver).next == old(driver).next + count
                &&& final(driver).budget == budget_minus(old(driver).budget, count as nat)
                &&& final(driver).same_platform(*old(driver))
                &&& forall|x: Handle|
                    final(driver).is_live(x) <==> (old(driver).is_live(x) || (old(driver).next <= x
                        < old(driver).next + count))
            }),
    {
        if !driver.can_alloc(count) {
            return Err(DriverError::OutOfMemory);
        }
        Ok(driver.allocate_run(HandleKind::DescriptorSet, pool, count))
    }

    /// Update descriptor sets; the ledger is unchanged.
    pub fn update_descriptor_sets(&self, driver: &mut Driver, sets: &Vec<Handle>)
        requires
            old(driver).inv(),
            old(driver).is_live(self.handle),
            forall|j: int| 0 <= j < sets@.len() ==> old(driver).is_live(#[trigger] sets@[j]),
        ensures
            final(driver).inv(),
            final(driver).trace@ == old(driver).trace@.push(DriverOp::UpdateDescriptorSets),
            final(driver).same_ledger(*old(driver)),
            final(driver).same_platform(*old(driver)),
    {
        driver.update_descriptor_sets(sets);
    }

    /// Return every set owned by a pool to the pool.
    pub fn reset_descriptor_pool(&self, driver: &mut Driver, pool: Handle)
        requires
            old(driver).inv(),
            old(driver).is_live(self.handle),
            old(driver).is_live(pool),
        ensures
            final(driver).inv(),
            final(driver).live@ == ledger_reset(old(driver).live@, pool),
            final(driver).trace@ == old(driver).trace@.push(DriverOp::ResetDescriptorPool(pool)),
            final(driver).next == old(driver).next,
            final(driver).budget == old(driver).budget,
            final(driver).same_platform(*old(driver)),
            final(driver).is_live(pool),
            forall|e: LiveEntry|
                #[trigger] final(driver).has_entry(e) <==> (old(driver).has_entry(e) && e.parent
                    != pool),
    {
        driver.reset_descriptor_pool(pool);
    }

    /// Destroy a descriptor set layout.
    pub fn destroy_descriptor_set_layout(&self, driver: &mut Driver, descriptor_set_layout: Handle)
        requires
            old(driver).inv(),
            old(driver).is_live(self.handle),
            old(driver).is_live(descriptor_set_layout),
        ensures
            final(driver).inv(),
            final(driver).trace@ == old(driver).trace@.push(
                DriverOp::Destroy(HandleKind::DescriptorSetLayout, descriptor_set_layout),
            ),
            final(driver).next == old(driver).next,
            final(driver).budget == old(driver).budget,
            final(driver).same_platform(*old(driver)),
            !final(driver).is_live(descriptor_set_layout),
            forall|e: LiveEntry|
                #[trigger] final(driver).has_entry(e) <==> (old(driver).has_entry(e) && e.handle
                    != descriptor_set_layout && e.parent != descriptor_set_layout),
    {
        driver.destroy(HandleKind::DescriptorSetLayout, descriptor_set_layout);
    }

    /// Destroy a descriptor pool; the driver releases the pool's sets with
    /// it.
    pub fn destroy_descriptor_pool(&self, driver: &mut Driver, descriptor_pool: Handle)
        requires
            old(driver).inv(),
            old(driver).is_live(self.handle),
            old(driver).is_live(descriptor_pool),
        ensures
            final(driver).inv(),
            final(driver).trace@ == old(driver).trace@.push(
                DriverOp::Destroy(HandleKind::DescriptorPool, descriptor_pool),
            ),
            final(driver).next == old(driver).next,
            final(driver).budget == old(driver).budget,
            final(driver).same_platform(*old(driver)),
            !final(driver).is_live(descriptor_pool),
            forall|e: LiveEntry|
                #[trigger] final(driver).has_entry(e) <==> (old(driver).has_entry(e) && e.handle
                    != descriptor_pool && e.parent != descriptor_pool),
    {
        driver.destroy(HandleKind::DescriptorPool, descriptor_pool);
    }

    /// Allocate command buffers of the given level from a pool; the pool
    /// owns them. Fails exactly when the driver cannot complete all the
    /// allocations, in which case nothing is allocated.
    #[allow(unused_variables)]
    pub fn allocate_command_buffers(&self, driver: &mut Driver, command_pool: Handle,
        count: u64, level: CommandBufferLevel) -> (r: Result<Vec<Handle>, DriverError>)
        requires
            old(driver).inv(),
            old(driver).is_live(self.handle),
            old(driver).is_live(command_pool),
        ensures
            final(driver).inv(),
            (r matches Ok(hs) <==> old(driver).can_create(count as nat)),
            (r matches Err(e) ==> e == DriverError::OutOfMemory && *final(driver) == *old(driver)),
            (r matches Ok(hs) ==> {
                &&& hs@.len() == count
                &&& forall|j: int| 0 <= j < count ==> hs@[j] == old(driver).next + j
                &&& final(driver).live@ == old(driver).live@ + run_entries(
                    HandleKind::CommandBuffer,
                    command_pool,
                    old(driver).next,
                    count as nat,
                )
                &&& final(driver).next == old(driver).next + count
                &&& final(driver).budget == budget_minus(old(driver).budget, count as nat)
                &&& final(driver).same_platform(*old(driver))
                &&& forall|x: Handle|
                    final(driver).is_live(x) <==> (old(driver).is_live(x) || (old(driver).next <= x
                        < old(driver).next + count))
            }),
    {
        if !driver.can_alloc(count) {
            return Err(DriverError::OutOfMemory);
        }
        Ok(driver.allocate_run(HandleKind::CommandBuffer, command_pool, count))
    }

    /// Start recording a command buffer.
    pub fn begin_command_buffer(&self, driver: &mut Driver, command_buffer: Handle)
        requires
            old(driver).inv(),
            old(driver).is_live(self.handle),
            old(driver).is_live(command_buffer),
        ensures
            final(driver).inv(),
            final(driver).trace@ == old(driver).trace@.push(
                DriverOp::BeginCommandBuffer(command_buffer),
            ),
            final(driver).same_ledger(*old(driver)),
            final(driver).same_platform(*old(driver)),
    {
        driver.begin_command_buffer(command_buffer);
    }

    /// End recording a command buffer.
    pub fn end_command_buffer(&self, driver: &mut Driver, command_buffer: Handle)
        requires
            old(driver).inv(),
            old(driver).is_live(self.handle),
            old(driver).is_live(command_buffer),
        ensures
            final(driver).inv(),
            final(driver).trace@ == old(driver).trace@.push(
                DriverOp::EndCommandBuffer(command_buffer),
            ),
            final(driver).same_ledger(*old(driver)),
            final(driver).same_platform(*old(driver)),
    {
        driver.end_command_buffer(command_buffer);
    }

    /// Submit one command buffer to a queue, waiting on a semaphore at the
    /// given stage (if any) and signaling a semaphore (if any).
    pub fn queue_submit(
        &self,
        driver: &mut Driver,
        queue: Handle,
        command_buffer: Handle,
        wait_semaphore: Option<Handle>,
        wait_stage: Option<PipelineStage>,
        signal_semaphore: Option<Handle>,
    )
        requires
            old(driver).inv(),
            old(driver).is_live(self.handle),
            old(driver).is_live(queue),
            old(driver).is_live(command_buffer),
            (wait_semaphore matches Some(w) ==> old(driver).is_live(w)),
            (signal_semaphore matches Some(g) ==> old(driver).is_live(g)),
        ensures
            final(driver).inv(),
            final(driver).trace@ == old(driver).trace@.push(
                DriverOp::QueueSubmit {
                    queue,
                    command_buffer,
                    wait_semaphore,
                    wait_stage,
                    signal_semaphore,
                },
            ),
            final(driver).same_ledger(*old(driver)),
            final(driver).same_platform(*old(driver)),
    {
        driver.queue_submit(queue, command_buffer, wait_semaphore, wait_stage, signal_semaphore);
    }

    /// Block until a queue is idle.
    pub fn queue_wait_idle(&self, driver: &mut Driver, queue: Handle)
        requires
            old(driver).inv(),
            old(driver).is_live(self.handle),
            old(driver).is_live(queue),
        ensures
            final(driver).inv(),
            final(driver).trace@ == old(driver).trace@.push(DriverOp::WaitIdle),
            final(driver).same_ledger(*old(driver)),
            final(driver).same_platform(*old(driver)),
    {
        driver.wait_idle();
    }

    /// Return command buffers to their pool.
    pub fn free_command_buffers(&self, driver: &mut Driver, command_pool: Handle,
        command_buffers: &Vec<Handle>)
        requires
            old(driver).inv(),
            old(driver).is_live(self.handle),
            forall|j: int|
                0 <= j < command_buffers@.len() ==> old(driver).has_entry(
                    LiveEntry {
                        handle: (#[trigger] command_buffers@[j]),
                        kind: HandleKind::CommandBuffer,
                        parent: command_pool,
                    },
                ),
            forall|a: int, b: int|
                0 <= a < b < command_buffers@.len() ==> command_buffers@[a] != command_buffers@[b],
            !command_buffers@.contains(command_pool),
        ensures
            final(driver).inv(),
            final(driver).trace@ == old(driver).trace@ + destroy_ops(
                HandleKind::CommandBuffer,
                command_buffers@,
            ),
            final(driver).next == old(driver).next,
            final(driver).budget == old(driver).budget,
            final(driver).same_platform(*old(driver)),
            forall|e: LiveEntry|
                #[trigger] final(driver).has_entry(e) <==> (old(driver).has_entry(e)
                    && !command_buffers@.contains(e.handle) && !command_buffers@.contains(
                    e.parent,
                )),
            forall|x: Handle|
                #[trigger] final(driver).is_live(x) ==> (old(driver).is_live(x)
                    && !command_buffers@.contains(x)),
    {
        driver.destroy_run(HandleKind::CommandBuffer, command_pool, command_buffers);
    }

    /// Create an image view over an image; fails exactly when the driver
    /// cannot allocate.
    pub fn create_image_view(&self, driver: &mut Driver, image: Handle) -> (r: Result<
        Handle,
        DriverError,
    >)
        requires
            old(driver).inv(),
            old(driver).is_live(self.handle),
            old(driver).is_live(image),
        ensures
            final(driver).inv(),
            (r matches Ok(h) <==> old(driver).can_create(1)),
            (r matches Err(e) ==> e == DriverError::OutOfMemory && *final(driver) == *old(driver)),
            (r matches Ok(h) ==> {
                &&& h == old(driver).next
                &&& final(driver).live@ == old(driver).live@.push(
                    LiveEntry { handle: h, kind: HandleKind::ImageView, parent: 0 },
                )
                &&& final(driver).trace@ == old(driver).trace@.push(
                    DriverOp::Create(HandleKind::ImageView, h),
                )
                &&& final(driver).next == old(driver).next + 1
                &&& final(driver).budget == budget_minus(old(driver).budget, 1)
                &&& final(driver).same_platform(*old(driver))
                &&& forall|x: Handle|
                    final(driver).is_live(x) <==> (old(driver).is_live(x) || x == h)
            }),
    {
        if !driver.can_alloc(1) {
            return Err(DriverError::OutOfMemory);
        }
        Ok(driver.allocate(HandleKind::ImageView, 0))
    }

    /// Destroy an image view.
    pub fn destroy_image_view(&self, driver: &mut Driver, image_view: Handle)
        requires
            old(driver).inv(),
            old(driver).is_live(self.handle),
            old(driver).is_live(image_view),
        ensures
            final(driver).inv(),
            final(driver).trace@ == old(driver).trace@.push(
                DriverOp::Destroy(HandleKind::ImageView, image_view),
            ),
            final(driver).next == old(driver).next,
            final(driver).budget == old(driver).budget,
            final(driver).same_platform(*old(driver)),
            !final(driver).is_live(image_view),
            forall|e: LiveEntry|
                #[trigger] final(driver).has_entry(e) <==> (old(driver).has_entry(e) && e.handle
                    != image_view && e.parent != image_view),
    {
        driver.destroy(HandleKind::ImageView, image_view);
    }

    /// Release the logical device connection: the model of this wrapper
    /// going out of scope. Must happen only after every dependent handle has
    /// been destroyed; the driver releases the device's queues with it.
    pub fn destroy(&self, driver: &mut Driver)
        requires
            old(driver).inv(),
            old(driver).is_live(self.handle),
        ensures
            final(driver).inv(),
            final(driver).trace@ == old(driver).trace@.push(
                DriverOp::Destroy(HandleKind::Device, self.handle),
            ),
            final(driver).next == old(driver).next,
            final(driver).budget == old(driver).budget,
            final(driver).same_platform(*old(driver)),
            !final(driver).is_live(self.handle),
            forall|e: LiveEntry|
                #[trigger] final(driver).has_entry(e) <==> (old(driver).has_entry(e) && e.handle
                    != self.handle && e.parent != self.handle),
    {
        driver.destroy(HandleKind::Device, self.handle);
    }
}

} // verus!
