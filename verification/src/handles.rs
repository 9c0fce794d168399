//! Plain-value model of driver handles, the driver call trace, and the error
//! codes the driver can report.

use vstd::prelude::*;

verus! {

/// A driver handle, modeled as an opaque integer id. The ledger issues ids
/// from a strictly increasing counter, so an id is never reused.
pub type Handle = u64;

/// The kind of object a handle refers to.
#[derive(Clone, Copy, PartialEq, Eq, Structural, Debug)]
pub enum HandleKind {
    Instance,
    Surface,
    Device,
    Queue,
    CommandPool,
    Semaphore,
    Swapchain,
    Image,
    ImageView,
    RenderPass,
    PipelineLayout,
    Pipeline,
    Framebuffer,
    Buffer,
    CommandBuffer,
    DescriptorPool,
    DescriptorSetLayout,
    DescriptorSet,
    Sampler,
}

/// The pipeline stage a queued wait takes effect at.
#[derive(Clone, Copy, PartialEq, Eq, Structural, Debug)]
pub enum PipelineStage {
    TopOfPipe,
    ColorAttachmentOutput,
    BottomOfPipe,
}

/// The level a command buffer is allocated at.
#[derive(Clone, Copy, PartialEq, Eq, Structural, Debug)]
pub enum CommandBufferLevel {
    Primary,
    Secondary,
}

/// One driver call, as recorded in the driver's trace. Destroy-order
/// properties are stated over sequences of these.
#[allow(inconsistent_fields)]
#[derive(Clone, Copy, PartialEq, Eq, Structural, Debug)]
pub enum DriverOp {
    /// A handle of the given kind was created (or retrieved, for objects the
    /// driver owns, such as swapchain images and device queues).
    Create(HandleKind, Handle),
    /// A handle of the given kind was destroyed (or freed).
    Destroy(HandleKind, Handle),
    /// Recording started on a command buffer.
    BeginCommandBuffer(Handle),
    /// Recording ended on a command buffer.
    EndCommandBuffer(Handle),
    /// A command buffer was submitted to a queue, waiting on a semaphore at
    /// the given stage (if any) and signaling a semaphore (if any).
    QueueSubmit {
        queue: Handle,
        command_buffer: Handle,
        wait_semaphore: Option<Handle>,
        wait_stage: Option<PipelineStage>,
        signal_semaphore: Option<Handle>,
    },
    /// The host blocked until the given queue (and device) went idle.
    WaitIdle,
    /// The next presentable image of a swapchain was acquired (waiting
    /// indefinitely), to signal the given semaphore when available.
    AcquireImage { chain: Handle, image_index: u64, signal_semaphore: Handle },
    /// An image of a swapchain was presented, waiting on the given semaphore.
    PresentImage { chain: Handle, image_index: u64, wait_semaphore: Handle },
    /// Descriptor sets were updated.
    UpdateDescriptorSets,
    /// A descriptor pool was reset, returning all its sets.
    ResetDescriptorPool(Handle),
    /// A command pool was reset, returning all its command buffers.
    ResetCommandPool(Handle),
}

/// An error code reported by the driver for a failed call.
#[derive(Clone, Copy, PartialEq, Eq, Structural, Debug)]
pub enum DriverError {
    /// The driver could not allocate the requested object.
    OutOfMemory,
    /// The logical device connection was lost.
    DeviceLost,
    /// The presentation surface no longer matches the swapchain.
    OutOfDate,
}

/// The outcome the driver reports for one present call.
#[derive(Clone, Copy, PartialEq, Eq, Structural, Debug)]
pub enum PresentOutcome {
    /// The image was presented and the swapchain still matches the surface.
    Success,
    /// The image was presented but the swapchain no longer matches the
    /// surface optimally; the engine treats this as a rebuild trigger.
    Suboptimal,
    /// The swapchain is out of date; nothing was presented.
    OutOfDate,
    /// The driver failed the present call with an error code.
    Failure(DriverError),
}

/// An error of this library: either a driver-reported code bubbled up, or a
/// violated lifetime invariant that the engine detects and reports.
#[derive(Clone, Copy, PartialEq, Eq, Structural, Debug)]
pub enum RenderError {
    /// A driver call failed with the given code.
    Driver(DriverError),
    /// A non-owning device reference was resolved after the device had been
    /// released: a destroy-order violation.
    DeviceGone,
    /// No physical device offers a queue family with both graphics and
    /// presentation support.
    NoSuitableDevice,
}

} // verus!
