//! The rendering engine orchestrator: owns the device handle, the command
//! pool, the synchronization pair and an optional swapchain; exposes
//! rendering, scene upload, buffer and command-buffer creation, and
//! swapchain recreation.

use vstd::prelude::*;

use crate::buffer::{Buffer, BufferType};
use crate::device::{CommandPoolCreateInfo, Device};
use crate::driver::{budget_minus, create_ops, Capabilities, Driver, LiveEntry, PhysicalDeviceInfo,
    QueueFamily};
use crate::handles::{CommandBufferLevel, DriverError, DriverOp, Handle, HandleKind,
    PipelineStage, PresentOutcome, RenderError};
use crate::render_object::{RecordedCommandBuffer, VulkanRenderObject};
use crate::scene::{Entity, Scene};
use crate::swapchain::SwapChain;

verus! {

/// What happened to one entity during a frame.
#[derive(Clone, Copy, PartialEq, Eq, Structural, Debug)]
pub enum DrawOutcome {
    /// The entity's command buffer was submitted and its image presented.
    Presented,
    /// The present call reported the chain out of date or suboptimal: the
    /// swapchain was discarded, to be rebuilt on the next frame.
    Invalidated,
    /// The present call failed with a driver error; the entity was skipped
    /// and the frame went on.
    Failed(DriverError),
    /// The entity had no GPU state to draw, or the swapchain was already
    /// discarded earlier in the frame.
    Skipped,
}

/// A queue family the engine can run on: graphics plus presentation support.
pub open spec fn family_ok(f: QueueFamily) -> bool {
    f.graphics && f.present
}

/// A physical device the engine can run on.
pub open spec fn device_ok(p: PhysicalDeviceInfo) -> bool {
    exists|j: int| 0 <= j < p.queue_families@.len() && family_ok(#[trigger] p.queue_families@[j])
}

/// Whether any reported physical device is suitable.
pub open spec fn any_device_ok(ds: Seq<PhysicalDeviceInfo>) -> bool {
    exists|i: int| 0 <= i < ds.len() && device_ok(#[trigger] ds[i])
}

/// The first queue family with graphics and presentation support, if any.
pub fn get_graphics_queue_family_index(families: &Vec<QueueFamily>) -> (r: Option<u32>)
    requires
        families@.len() <= u32::MAX,
    ensures
        (r matches Some(f) <==> exists|j: int|
            0 <= j < families@.len() && family_ok(#[trigger] families@[j])),
        (r matches Some(f) ==> 0 <= f < families@.len() && family_ok(families@[f as int]) && (
        forall|m: int| 0 <= m < f ==> !family_ok(#[trigger] families@[m]))),
{
    let n = families.len();
    let mut j: usize = 0;
    while j < n
        invariant
            n == families@.len() <= u32::MAX,
            0 <= j <= n,
            forall|m: int| 0 <= m < j ==> !family_ok(#[trigger] families@[m]),
        decreases n - j,
    {
        let f = families[j];
        if f.graphics && f.present {
            return Some(j as u32);
        }
        j = j + 1;
    }
    None
}

/// The first physical device with a suitable queue family, and that family's
/// index: no elaborate scoring.
pub fn get_physical_device(devices: &Vec<PhysicalDeviceInfo>) -> (r: Option<(usize, u32)>)
    requires
        forall|i: int|
            0 <= i < devices@.len() ==> (#[trigger] devices@[i]).queue_families@.len() <= u32::MAX,
    ensures
        (r matches Some(p) <==> any_device_ok(devices@)),
        (r matches Some(p) ==> {
            &&& 0 <= p.0 < devices@.len()
            &&& device_ok(devices@[p.0 as int])
            &&& forall|i: int| 0 <= i < p.0 ==> !device_ok(#[trigger] devices@[i])
            &&& 0 <= p.1 < devices@[p.0 as int].queue_families@.len()
            &&& family_ok(devices@[p.0 as int].queue_families@[p.1 as int])
        }),
{
    let n = devices.len();
    let mut i: usize = 0;
    while i < n
        invariant
            n == devices@.len(),
            0 <= i <= n,
            forall|m: int| 0 <= m < i ==> !device_ok(#[trigger] devices@[m]),
            forall|k: int|
                0 <= k < devices@.len() ==> (#[trigger] devices@[k]).queue_families@.len()
                    <= u32::MAX,
        decreases n - i,
    {
        let found = get_graphics_queue_family_index(&devices[i].queue_families);
        match found {
            Some(f) => {
                return Some((i, f));
            },
            None => {},
        }
        i = i + 1;
    }
    None
}

/// Creations uploading one entity makes: two buffer uploads (three
/// creations each) and one command buffer per framebuffer, for an entity
/// that carries raw render data but no GPU state yet; nothing otherwise.
pub open spec fn entity_upload_cost(ent: Entity, n: nat) -> nat {
    if ent.render_object is Some && ent.vulkan_render_object is None {
        6 + n
    } else {
        0
    }
}

/// Creations a scene upload makes, over all entities.
pub open spec fn scene_upload_cost(s: Seq<Entity>, n: nat) -> nat
    decreases s.len(),
{
    if s.len() == 0 {
        0
    } else {
        entity_upload_cost(s[0], n) + scene_upload_cost(s.drop_first(), n)
    }
}

/// Creations re-recording one entity against a rebuilt swapchain makes: one
/// command buffer per framebuffer, for an entity with GPU state.
pub open spec fn entity_rerecord_cost(ent: Entity, n: nat) -> nat {
    if ent.vulkan_render_object is Some {
        n
    } else {
        0
    }
}

/// Creations re-recording the whole scene makes.
pub open spec fn scene_rerecord_cost(s: Seq<Entity>, n: nat) -> nat
    decreases s.len(),
{
    if s.len() == 0 {
        0
    } else {
        entity_rerecord_cost(s[0], n) + scene_rerecord_cost(s.drop_first(), n)
    }
}

/// The frame-loop outcome for one present result.
pub open spec fn outcome_of(po: PresentOutcome) -> DrawOutcome {
    match po {
        PresentOutcome::Success => DrawOutcome::Presented,
        PresentOutcome::Suboptimal => DrawOutcome::Invalidated,
        PresentOutcome::OutOfDate => DrawOutcome::Invalidated,
        PresentOutcome::Failure(e) => DrawOutcome::Failed(e),
    }
}

/// A present result that invalidates the swapchain.
pub open spec fn invalidating(po: PresentOutcome) -> bool {
    po == PresentOutcome::OutOfDate || po == PresentOutcome::Suboptimal
}

/// The outcome the schedule holds at a position; an exhausted schedule means
/// success.
pub open spec fn scheduled_outcome(schedule: Seq<PresentOutcome>, pos: nat) -> PresentOutcome {
    if pos < schedule.len() {
        schedule[pos as int]
    } else {
        PresentOutcome::Success
    }
}

/// The schedule position after one present call.
pub open spec fn next_schedule_pos(schedule: Seq<PresentOutcome>, pos: nat) -> nat {
    if pos < schedule.len() {
        pos + 1
    } else {
        pos
    }
}

/// The driver calls one drawable's submit-and-present cycle makes: acquire
/// the next image signaling `image_available`, submit the command buffer for
/// the acquired index waiting on `image_available` at the
/// color-attachment-output stage and signaling `render_finished`, present
/// the image waiting on `render_finished`, then block until the queue is
/// idle.
pub open spec fn draw_ops(
    queue: Handle,
    image_available: Handle,
    render_finished: Handle,
    chain: Handle,
    image_index: u64,
    cbs: Seq<RecordedCommandBuffer>,
) -> Seq<DriverOp> {
    seq![
        DriverOp::AcquireImage { chain, image_index, signal_semaphore: image_available },
        DriverOp::QueueSubmit {
            queue,
            command_buffer: cbs[image_index as int].handle,
            wait_semaphore: Option::Some(image_available),
            wait_stage: Option::Some(PipelineStage::ColorAttachmentOutput),
            signal_semaphore: Option::Some(render_finished),
        },
        DriverOp::PresentImage { chain, image_index, wait_semaphore: render_finished },
        DriverOp::WaitIdle,
    ]
}

/// What the frame loop reports for each entity in order: entities without
/// GPU state are skipped; once a present outcome invalidates the chain, the
/// remaining entities are skipped; otherwise a drawable consumes the next
/// scheduled present outcome.
pub open spec fn frame_outcomes(
    entities: Seq<Entity>,
    schedule: Seq<PresentOutcome>,
    pos: nat,
    alive: bool,
) -> Seq<DrawOutcome>
    decreases entities.len(),
{
    if entities.len() == 0 {
        Seq::<DrawOutcome>::empty()
    } else {
        let rest = entities.drop_first();
        if entities[0].vulkan_render_object is None || !alive {
            seq![DrawOutcome::Skipped] + frame_outcomes(rest, schedule, pos, alive)
        } else {
            let po = scheduled_outcome(schedule, pos);
            seq![outcome_of(po)] + frame_outcomes(
                rest,
                schedule,
                next_schedule_pos(schedule, pos),
                alive && !invalidating(po),
            )
        }
    }
}

/// The driver calls the frame loop makes: one submit-and-present cycle per
/// drawable drawn, with the acquired image index rotating round-robin, until
/// a present outcome invalidates the chain.
pub open spec fn frame_draw_ops(
    queue: Handle,
    image_available: Handle,
    render_finished: Handle,
    entities: Seq<Entity>,
    schedule: Seq<PresentOutcome>,
    pos: nat,
    counter: u64,
    alive: bool,
    chain: Handle,
    n_images: nat,
) -> Seq<DriverOp>
    decreases entities.len(),
{
    if entities.len() == 0 {
        Seq::<DriverOp>::empty()
    } else {
        let rest = entities.drop_first();
        if entities[0].vulkan_render_object is None || !alive {
            frame_draw_ops(
                queue,
                image_available,
                render_finished,
                rest,
                schedule,
                pos,
                counter,
                alive,
                chain,
                n_images,
            )
        } else {
            let po = scheduled_outcome(schedule, pos);
            let idx = (counter as nat) % n_images;
            draw_ops(
                queue,
                image_available,
                render_finished,
                chain,
                idx as u64,
                (entities[0].vulkan_render_object->Some_0).command_buffers@,
            ) + frame_draw_ops(
                queue,
                image_available,
                render_finished,
                rest,
                schedule,
                next_schedule_pos(schedule, pos),
                (idx + 1) as u64,
                alive && !invalidating(po),
                chain,
                n_images,
            )
        }
    }
}

/// The create calls a swapchain build makes when the chain handle is issued
/// at `base`: the handles follow the build's issue order.
pub open spec fn build_ops_at(base: Handle, capabilities: Capabilities) -> Seq<DriverOp> {
    let n = capabilities.image_count() as int;
    seq![DriverOp::Create(HandleKind::Swapchain, base)] + create_ops(
        HandleKind::Image,
        Seq::new(n as nat, |k: int| (base + 1 + k) as u64),
    ) + create_ops(HandleKind::ImageView, Seq::new(n as nat, |k: int| (base + 1 + n + k) as u64))
        + seq![
        DriverOp::Create(HandleKind::RenderPass, (base + 1 + 2 * n) as u64),
        DriverOp::Create(HandleKind::PipelineLayout, (base + 2 + 2 * n) as u64),
        DriverOp::Create(HandleKind::Pipeline, (base + 3 + 2 * n) as u64),
    ] + create_ops(HandleKind::Framebuffer, Seq::new(n as nat, |k: int| (base + 4 + 2 * n + k) as u64))
}

/// The create calls re-recording the scene makes after a rebuild: one run of
/// `n` command buffers per drawable, issued consecutively from `next`.
pub open spec fn rerecord_ops(entities: Seq<Entity>, next: Handle, n: nat) -> Seq<DriverOp>
    decreases entities.len(),
{
    if entities.len() == 0 {
        Seq::<DriverOp>::empty()
    } else if entities[0].vulkan_render_object is Some {
        create_ops(HandleKind::CommandBuffer, Seq::new(n, |k: int| (next + k) as u64))
            + rerecord_ops(entities.drop_first(), (next + n) as u64, n)
    } else {
        rerecord_ops(entities.drop_first(), next, n)
    }
}

/// Every driver call a frame makes: the rebuild (idle wait, build, pool
/// reset, re-record) when the chain was absent, then the drawable cycles.
pub open spec fn rebuild_ops(
    pool: Handle,
    base: Handle,
    capabilities: Capabilities,
    entities: Seq<Entity>,
) -> Seq<DriverOp> {
    seq![DriverOp::WaitIdle] + build_ops_at(base, capabilities) + seq![
        DriverOp::ResetCommandPool(pool),
    ] + rerecord_ops(
        entities,
        (base + SwapChain::build_cost(capabilities)) as u64,
        capabilities.image_count(),
    )
}

/// The rendering engine: owner of the device handle, the command pool, the
/// synchronization pair, and an optional swapchain.
pub struct VulkanRenderingEngine {
    /// The instance handle.
    pub instance: Handle,
    /// The selected physical device's index.
    pub physical_device_index: usize,
    /// The owned device handle; destroyed last.
    pub device: Device,
    /// The presentation surface handle.
    pub surface: Handle,
    /// The surface format the engine renders in.
    pub format: u32,
    /// The present mode the engine presents with.
    pub present_mode: u32,
    /// The device's graphics/present queue.
    pub queue: Handle,
    /// The swapchain; absent initially after invalidation, rebuilt lazily.
    pub swapchain: Option<SwapChain>,
    /// The command pool (transient, individually resettable buffers).
    pub command_pool: Handle,
    /// The configuration the command pool was created with.
    pub command_pool_info: CommandPoolCreateInfo,
    /// Signaled when the acquired image is available.
    pub image_available_semaphore: Handle,
    /// Signaled when rendering has finished.
    pub render_finished_semaphore: Handle,
}

impl VulkanRenderingEngine {
    /// Well-formedness against a driver state: the fixed handles were issued
    /// consecutively and are live with the right kinds, and a present
    /// swapchain is well-formed, refers to this device, and was issued after
    /// the fixed handles.
    pub open spec fn wf(self, d: Driver) -> bool {
        &&& 1 <= self.instance
        &&& self.surface == self.instance + 1
        &&& self.device.handle == self.instance + 2
        &&& self.queue == self.instance + 3
        &&& self.command_pool == self.instance + 4
        &&& self.image_available_semaphore == self.instance + 5
        &&& self.render_finished_semaphore == self.instance + 6
        &&& d.has_entry(LiveEntry { handle: self.instance, kind: HandleKind::Instance, parent: 0 })
        &&& d.has_entry(LiveEntry { handle: self.surface, kind: HandleKind::Surface, parent: 0 })
        &&& d.has_entry(
            LiveEntry { handle: self.device.handle, kind: HandleKind::Device, parent: 0 },
        )
        &&& d.has_entry(
            LiveEntry { handle: self.queue, kind: HandleKind::Queue, parent: self.device.handle },
        )
        &&& d.has_entry(
            LiveEntry { handle: self.command_pool, kind: HandleKind::CommandPool, parent: 0 },
        )
        &&& d.has_entry(
            LiveEntry {
                handle: self.image_available_semaphore,
                kind: HandleKind::Semaphore,
                parent: 0,
            },
        )
        &&& d.has_entry(
            LiveEntry {
                handle: self.render_finished_semaphore,
                kind: HandleKind::Semaphore,
                parent: 0,
            },
        )
        &&& match self.swapchain {
            Option::Some(sc) => sc.wf(d) && sc.device == self.device.handle && sc.handle
                > self.render_finished_semaphore,
            Option::None => true,
        }
    }

    /// The ledger entries for the engine's seven fixed handles, in creation
    /// order.
    pub open spec fn base_entries(self) -> Seq<LiveEntry> {
        seq![
            LiveEntry { handle: self.instance, kind: HandleKind::Instance, parent: 0 },
            LiveEntry { handle: self.surface, kind: HandleKind::Surface, parent: 0 },
            LiveEntry { handle: self.device.handle, kind: HandleKind::Device, parent: 0 },
            LiveEntry { handle: self.queue, kind: HandleKind::Queue, parent: self.device.handle },
            LiveEntry { handle: self.command_pool, kind: HandleKind::CommandPool, parent: 0 },
            LiveEntry {
                handle: self.image_available_semaphore,
                kind: HandleKind::Semaphore,
                parent: 0,
            },
            LiveEntry {
                handle: self.render_finished_semaphore,
                kind: HandleKind::Semaphore,
                parent: 0,
            },
        ]
    }

    /// The create calls engine construction makes for the fixed handles.
    pub open spec fn base_ops(self) -> Seq<DriverOp> {
        seq![
            DriverOp::Create(HandleKind::Instance, self.instance),
            DriverOp::Create(HandleKind::Surface, self.surface),
            DriverOp::Create(HandleKind::Device, self.device.handle),
            DriverOp::Create(HandleKind::Queue, self.queue),
            DriverOp::Create(HandleKind::CommandPool, self.command_pool),
            DriverOp::Create(HandleKind::Semaphore, self.image_available_semaphore),
            DriverOp::Create(HandleKind::Semaphore, self.render_finished_semaphore),
        ]
    }

    /// Creations engine construction makes: the seven fixed handles plus the
    /// initial swapchain build.
    pub open spec fn engine_build_cost(capabilities: Capabilities) -> nat {
        7 + SwapChain::build_cost(capabilities)
    }

    /// The destroy calls engine teardown makes after the swapchain is gone,
    /// in order: command pool (releasing its command buffers), the two
    /// semaphores, the device (releasing its queues), the surface, the
    /// instance.
    pub open spec fn base_teardown_ops(self) -> Seq<DriverOp> {
        seq![
            DriverOp::Destroy(HandleKind::CommandPool, self.command_pool),
            DriverOp::Destroy(HandleKind::Semaphore, self.image_available_semaphore),
            DriverOp::Destroy(HandleKind::Semaphore, self.render_finished_semaphore),
            DriverOp::Destroy(HandleKind::Device, self.device.handle),
            DriverOp::Destroy(HandleKind::Surface, self.surface),
            DriverOp::Destroy(HandleKind::Instance, self.instance),
        ]
    }

    /// Whether a ledger entry is untouched by engine teardown: it is neither
    /// one of the engine's handles (swapchain included) nor owned by one.
    pub open spec fn survives_engine_teardown(self, e: LiveEntry) -> bool {
        &&& match self.swapchain {
            Option::Some(sc) => sc.survives_teardown(e),
            Option::None => true,
        }
        &&& e.handle != self.command_pool && e.parent != self.command_pool
        &&& e.handle != self.image_available_semaphore && e.parent
            != self.image_available_semaphore
        &&& e.handle != self.render_finished_semaphore && e.parent
            != self.render_finished_semaphore
        &&& e.handle != self.device.handle && e.parent != self.device.handle
        &&& e.handle != self.surface && e.parent != self.surface
        &&& e.handle != self.instance && e.parent != self.instance
    }

    /// Create the engine: select the first suitable physical device, create
    /// the instance, surface, device and queue, a transient command pool, the
    /// two frame-synchronization semaphores, and an initial swapchain from
    /// the current surface capabilities.
    ///
    /// Fails with [`RenderError::NoSuitableDevice`] when no physical device
    /// offers a queue family with graphics and presentation support, and
    /// with a driver error exactly when the driver cannot complete the
    /// creations; on failure nothing is created.
    #[verifier::rlimit(100)]
    pub fn new(driver: &mut Driver) -> (r: Result<VulkanRenderingEngine, RenderError>)
        requires
            old(driver).inv(),
        ensures
            final(driver).inv(),
            (r matches Ok(eng) <==> (any_device_ok(old(driver).physical_devices@) && old(
                driver,
            ).can_create(Self::engine_build_cost(old(driver).capabilities)))),
            (r matches Err(e) ==> *final(driver) == *old(driver) && e == (
            if !any_device_ok(old(driver).physical_devices@) {
                RenderError::NoSuitableDevice
            } else {
                RenderError::Driver(DriverError::OutOfMemory)
            })),
            (r matches Ok(eng) ==> {
                &&& eng.wf(*final(driver))
                &&& eng.swapchain matches Option::Some(sc) && sc.image_count() == old(
                    driver,
                ).capabilities.image_count() && sc.format == old(driver).capabilities.format
                &&& eng.format == old(driver).capabilities.format
                &&& eng.present_mode == old(driver).capabilities.present_mode
                &&& eng.instance == old(driver).next
                &&& eng.device.instance == eng.instance
                &&& eng.device.physical_device_index == eng.physical_device_index
                &&& eng.device.queue_family_index < old(driver).physical_devices@[
                    eng.physical_device_index as int
                ].queue_families@.len()
                &&& family_ok(
                    old(driver).physical_devices@[eng.physical_device_index as int].queue_families@[
                        eng.device.queue_family_index as int
                    ],
                )
                &&& eng.command_pool_info == (CommandPoolCreateInfo {
                    transient: true,
                    reset_command_buffer: true,
                    queue_family_index: eng.device.queue_family_index,
                })
                &&& 0 <= eng.physical_device_index < old(driver).physical_devices@.len()
                &&& device_ok(old(driver).physical_devices@[eng.physical_device_index as int])
                &&& forall|i: int|
                    0 <= i < eng.physical_device_index ==> !device_ok(
                        #[trigger] old(driver).physical_devices@[i],
                    )
                &&& final(driver).live@ == old(driver).live@ + eng.base_entries() + (
                eng.swapchain->Some_0).build_entries()
                &&& final(driver).trace@ == old(driver).trace@ + eng.base_ops() + (
                eng.swapchain->Some_0).build_ops()
                &&& final(driver).next == old(driver).next + Self::engine_build_cost(
                    old(driver).capabilities,
                )
                &&& final(driver).budget == budget_minus(
                    old(driver).budget,
                    Self::engine_build_cost(old(driver).capabilities),
                )
                &&& final(driver).same_platform(*old(driver))
                &&& forall|x: Handle|
                    final(driver).is_live(x) <==> (old(driver).is_live(x) || (old(driver).next <= x
                        < final(driver).next))
            }),
    {
        let selected = get_physical_device(&driver.physical_devices);
        let (physical_device_index, queue_family_index) = match selected {
            Some(p) => p,
            None => {
                return Err(RenderError::NoSuitableDevice);
            },
        };
        let capabilities = driver.capabilities;
        let n = capabilities.image_count_exec();
        let total: u64 = 7 + (4 + 3 * n);
        if !driver.can_alloc(total) {
            return Err(RenderError::Driver(DriverError::OutOfMemory));
        }
        let ghost d0 = *driver;
        let instance = driver.allocate(HandleKind::Instance, 0);
        let surface = driver.allocate(HandleKind::Surface, 0);
        let device = Device::new(driver, instance, physical_device_index, queue_family_index);
        let queue = device.get_device_queue(driver, queue_family_index, 0);
        let pool_info = CommandPoolCreateInfo {
            transient: true,
            reset_command_buffer: true,
            queue_family_index,
        };
        let pool_r = device.create_command_pool(driver, &pool_info);
        let command_pool = match pool_r {
            Ok(h) => h,
            Err(_) => {
                proof {
                    assert(false);
                }
                0
            },
        };
        let image_available_semaphore = driver.allocate(HandleKind::Semaphore, 0);
        let render_finished_semaphore = driver.allocate(HandleKind::Semaphore, 0);
        let ghost d7 = *driver;
        let sc_r = SwapChain::new(
            driver,
            device.vk_device(),
            surface,
            capabilities,
            capabilities.format,
            capabilities.present_mode,
        );
        proof {
            assert(sc_r matches Ok(sc));
        }
        let swapchain = match sc_r {
            Ok(sc) => sc,
            Err(e) => {
                return Err(e);
            },
        };
        let eng = VulkanRenderingEngine {
            instance,
            physical_device_index,
            device,
            surface,
            format: capabilities.format,
            present_mode: capabilities.present_mode,
            queue,
            swapchain: Option::Some(swapchain),
            command_pool,
            command_pool_info: pool_info,
            image_available_semaphore,
            render_finished_semaphore,
        };
        proof {
            assert(driver.live@ =~= d0.live@ + eng.base_entries() + (
            eng.swapchain->Some_0).build_entries());
            assert(driver.trace@ =~= d0.trace@ + eng.base_ops() + (
            eng.swapchain->Some_0).build_ops());
            assert(d7.live@[d0.live@.len() as int] == eng.base_entries()[0]);
            assert(d7.live@[d0.live@.len() as int + 1] == eng.base_entries()[1]);
            assert(d7.live@[d0.live@.len() as int + 2] == eng.base_entries()[2]);
            assert(d7.live@[d0.live@.len() as int + 3] == eng.base_entries()[3]);
            assert(d7.live@[d0.live@.len() as int + 4] == eng.base_entries()[4]);
            assert(d7.live@[d0.live@.len() as int + 5] == eng.base_entries()[5]);
            assert(d7.live@[d0.live@.len() as int + 6] == eng.base_entries()[6]);
            assert forall|k: int| 0 <= k < 7 implies driver.has_entry(
                #[trigger] eng.base_entries()[k],
            ) by {
                assert(driver.live@[d0.live@.len() + k] == eng.base_entries()[k]);
            }
        }
        Ok(eng)
    }

    /// One entity is in good standing with this engine: its raw data (if
    /// any) is well-formed, and its GPU state (if any) is live, owned by the
    /// engine's pool, and recorded against the current swapchain.
    pub open spec fn entity_wf(self, ent: Entity, d: Driver) -> bool {
        &&& (ent.render_object matches Option::Some(ro) ==> ro.wf())
        &&& (ent.vulkan_render_object matches Option::Some(o) ==> o.wf(d, self.command_pool) && (
        self.swapchain matches Option::Some(sc) ==> o.matches_swapchain(sc)))
    }

    /// Every entity of the scene is in good standing: whenever the swapchain
    /// is present, every drawable's command buffers target its framebuffers.
    pub open spec fn scene_wf(self, s: Scene, d: Driver) -> bool {
        forall|i: int|
            0 <= i < s.entities@.len() ==> self.entity_wf(#[trigger] s.entities@[i], d)
    }

    /// Upload GPU state for every entity that carries raw render data but no
    /// GPU state yet: upload its vertex and index buffers and record its
    /// initial command buffers. All-or-nothing: fails exactly when the
    /// driver cannot complete every creation, in which case nothing is done.
    #[verifier::rlimit(100)]
    #[verifier::spinoff_prover]
    pub fn scene_loaded(&self, driver: &mut Driver, scene: &mut Scene) -> (r: Result<
        (),
        RenderError,
    >)
        requires
            old(driver).inv(),
            self.wf(*old(driver)),
            self.swapchain matches Option::Some(osc),
            self.scene_wf(*old(scene), *old(driver)),
        ensures
            final(driver).inv(),
            self.wf(*final(driver)),
            self.scene_wf(*final(scene), *final(driver)),
            (r matches Ok(u) <==> old(driver).can_create(
                scene_upload_cost(
                    old(scene).entities@,
                    (self.swapchain->Some_0).framebuffers@.len(),
                ),
            )),
            (r matches Err(e) ==> e == RenderError::Driver(DriverError::OutOfMemory)
                && *final(driver) == *old(driver) && *final(scene) == *old(scene)),
            final(driver).same_platform(*old(driver)),
            forall|e: LiveEntry| old(driver).has_entry(e) ==> #[trigger] final(driver).has_entry(e),
            final(scene).entities@.len() == old(scene).entities@.len(),
            (r matches Ok(u) ==> forall|i: int|
                0 <= i < old(scene).entities@.len() ==> {
                    let oe = #[trigger] old(scene).entities@[i];
                    let ne = final(scene).entities@[i];
                    &&& ne.render_object == oe.render_object
                    &&& (oe.vulkan_render_object is Some ==> ne.vulkan_render_object
                        == oe.vulkan_render_object)
                    &&& (ne.vulkan_render_object is Some <==> (oe.vulkan_render_object is Some
                        || oe.render_object is Some))
                    &&& ((oe.vulkan_render_object is None && oe.render_object is Some) ==> (
                    ne.vulkan_render_object is Some && {
                        let ro = oe.render_object->Some_0;
                        let o = ne.vulkan_render_object->Some_0;
                        &&& o.vertex_buffer.data@ == ro.vertex_data@
                        &&& o.index_buffer.data@ == ro.index_data@
                        &&& o.index_buffer.element_count == ro.index_data@.len() / 4
                        &&& o.command_buffers@.len() == (
                        self.swapchain->Some_0).framebuffers@.len()
                    }))
                }),
    {
        let n: u64 = match &self.swapchain {
            Option::Some(sc) => sc.framebuffers.len() as u64,
            Option::None => {
                proof {
                    assert(false);
                }
                0
            },
        };
        let ghost nn = n as nat;
        let ghost orig = scene.entities@;
        let count = scene.entities.len();
        proof {
            assert(orig.subrange(0, count as int) =~= orig);
        }
        let mut total: u64 = 0;
        let mut i: usize = 0;
        while i < count
            invariant
                count == orig.len(),
                *scene == *old(scene),
                *driver == *old(driver),
                driver.inv(),
                self.wf(*driver),
                self.scene_wf(*scene, *driver),
                scene.entities@ == orig,
                0 <= i <= count,
                n as nat == nn,
                self.swapchain matches Option::Some(osc),
                (self.swapchain->Some_0).framebuffers@.len() == nn,
                scene_upload_cost(orig, nn) == total + scene_upload_cost(
                    orig.subrange(i as int, count as int),
                    nn,
                ),
            decreases count - i,
        {
            proof {
                assert(orig.subrange(i as int, count as int).drop_first() =~= orig.subrange(
                    i + 1 as int,
                    count as int,
                ));
                assert(orig.subrange(i as int, count as int)[0] == orig[i as int]);
            }
            let ent = &scene.entities[i];
            if ent.render_object.is_some() && ent.vulkan_render_object.is_none() {
                if n > u64::MAX - 6 || total > u64::MAX - (6 + n) {
                    proof {
                        assert(scene_upload_cost(orig.subrange(i as int, count as int), nn)
                            >= entity_upload_cost(orig[i as int], nn));
                        assert(!old(driver).can_create(scene_upload_cost(orig, nn)));
                    }
                    return Err(RenderError::Driver(DriverError::OutOfMemory));
                }
                total = total + (6 + n);
            }
            i = i + 1;
        }
        proof {
            assert(orig.subrange(count as int, count as int) =~= Seq::<Entity>::empty());
        }
        if !driver.can_alloc(total) {
            return Err(RenderError::Driver(DriverError::OutOfMemory));
        }
        proof {
            assert(orig.subrange(0, count as int) =~= orig);
        }
        let mut processed: Vec<Entity> = Vec::new();
        let mut j: usize = 0;
        while j < count
            invariant
                count == orig.len(),
                scene.entities@ == orig.subrange(j as int, count as int),
                0 <= j <= count,
                n as nat == nn,
                processed@.len() == j,
                driver.inv(),
                self.wf(*driver),
                self.swapchain matches Option::Some(osc),
                (self.swapchain->Some_0).framebuffers@.len() == nn,
                driver.can_create(scene_upload_cost(orig.subrange(j as int, count as int), nn)),
                driver.same_platform(*old(driver)),
                forall|e: LiveEntry|
                    old(driver).has_entry(e) ==> #[trigger] driver.has_entry(e),
                forall|k: int|
                    j <= k < count ==> self.entity_wf(#[trigger] orig[k], *driver),
                forall|k: int|
                    0 <= k < j ==> {
                        let oe = #[trigger] orig[k];
                        let ne = processed@[k];
                        &&& self.entity_wf(ne, *driver)
                        &&& ne.render_object == oe.render_object
                        &&& (oe.vulkan_render_object is Some ==> ne.vulkan_render_object
                            == oe.vulkan_render_object)
                        &&& (ne.vulkan_render_object is Some <==> (oe.vulkan_render_object is Some
                            || oe.render_object is Some))
                        &&& ((oe.vulkan_render_object is None && oe.render_object is Some) ==> (
                        ne.vulkan_render_object is Some && {
                            let ro = oe.render_object->Some_0;
                            let o = ne.vulkan_render_object->Some_0;
                            &&& o.vertex_buffer.data@ == ro.vertex_data@
                            &&& o.index_buffer.data@ == ro.index_data@
                            &&& o.index_buffer.element_count == ro.index_data@.len() / 4
                            &&& o.command_buffers@.len() == nn
                        }))
                    },
            decreases count - j,
        {
            proof {
                assert(orig.subrange(j as int, count as int).drop_first() =~= orig.subrange(
                    j + 1 as int,
                    count as int,
                ));
                assert(orig.subrange(j as int, count as int)[0] == orig[j as int]);
            }
            let ent = scene.entities.remove(0);
            proof {
                assert(scene.entities@ =~= orig.subrange(j + 1 as int, count as int));
            }
            let Entity { render_object, vulkan_render_object } = ent;
            let new_vro: Option<VulkanRenderObject> = match (render_object.is_some(),
                vulkan_render_object) {
                (true, Option::None) => {
                    let data_ref = match &render_object {
                        Option::Some(ro) => ro,
                        Option::None => {
                            proof {
                                assert(false);
                            }
                            return Err(RenderError::DeviceGone);
                        },
                    };
                    let built = VulkanRenderObject::new(self, driver, data_ref);
                    match built {
                        Ok(o) => Option::Some(o),
                        Err(_) => {
                            proof {
                                assert(false);
                            }
                            return Err(RenderError::DeviceGone);
                        },
                    }
                },
                (_, other) => other,
            };
            processed.push(Entity { render_object, vulkan_render_object: new_vro });
            j = j + 1;
        }
        scene.entities = processed;
        proof {
            assert forall|i: int| 0 <= i < scene.entities@.len() implies self.entity_wf(
                #[trigger] scene.entities@[i],
                *driver,
            ) by {
                let oe = orig[i];
                assert(self.entity_wf(processed@[i], *driver));
            }
        }
        Ok(())
    }

    /// Render one frame. If the swapchain is absent, rebuild it first
    /// (blocking on device idle so nothing in flight uses the old resources,
    /// returning the pool's command buffers in one reset, and re-recording
    /// every drawable's command buffers against the new framebuffers). Then,
    /// for every drawable, submit its command buffer and present (the
    /// submit-and-present protocol of [`Self::render_object`]); an
    /// out-of-date or suboptimal present outcome discards the swapchain and
    /// skips the remaining drawables, and a per-drawable present failure is
    /// reported in its outcome without aborting the frame.
    ///
    /// Driver failure during the rebuild is a fatal condition in the frame
    /// loop, so the driver is required to complete it when the swapchain is
    /// absent.
    #[verifier::rlimit(100)]
    #[verifier::spinoff_prover]
    pub fn render(&mut self, driver: &mut Driver, scene: &mut Scene) -> (outcomes: Vec<
        DrawOutcome,
    >)
        requires
            old(driver).inv(),
            old(self).wf(*old(driver)),
            old(self).scene_wf(*old(scene), *old(driver)),
            old(self).swapchain is Some || old(driver).can_create(
                SwapChain::build_cost(old(driver).capabilities) + scene_rerecord_cost(
                    old(scene).entities@,
                    old(driver).capabilities.image_count(),
                ),
            ),
        ensures
            final(driver).inv(),
            final(self).wf(*final(driver)),
            final(self).scene_wf(*final(scene), *final(driver)),
            final(driver).same_surface(*old(driver)),
            *final(self) == (VulkanRenderingEngine {
                swapchain: final(self).swapchain,
                ..*old(self)
            }),
            outcomes@.len() == old(scene).entities@.len(),
            final(scene).entities@.len() == old(scene).entities@.len(),
            (old(self).swapchain is Some ==> *final(scene) == *old(scene)),
            forall|i: int|
                0 <= i < old(scene).entities@.len() ==> {
                    let oe = #[trigger] old(scene).entities@[i];
                    let ne = final(scene).entities@[i];
                    &&& ne.render_object == oe.render_object
                    &&& (ne.vulkan_render_object is Some <==> oe.vulkan_render_object is Some)
                    &&& (oe.vulkan_render_object is Some ==> (
                    ne.vulkan_render_object->Some_0).vertex_buffer == (
                    oe.vulkan_render_object->Some_0).vertex_buffer && (
                    ne.vulkan_render_object->Some_0).index_buffer == (
                    oe.vulkan_render_object->Some_0).index_buffer)
                    &&& (oe.vulkan_render_object is None ==> outcomes@[i] == DrawOutcome::Skipped)
                },
            (final(self).swapchain is None <==> exists|j: int|
                0 <= j < outcomes@.len() && outcomes@[j] == DrawOutcome::Invalidated),
            (old(self).swapchain is None ==> forall|i: int|
                (0 <= i < final(scene).entities@.len()
                    && (#[trigger] final(scene).entities@[i]).vulkan_render_object is Some) ==> (
                final(scene).entities@[i].vulkan_render_object->Some_0).command_buffers@.len()
                    == old(driver).capabilities.image_count()),
            final(driver).present_schedule@ == old(driver).present_schedule@,
            outcomes@ == frame_outcomes(
                final(scene).entities@,
                old(driver).present_schedule@,
                old(driver).present_pos as nat,
                true,
            ),
            final(driver).trace@ == old(driver).trace@ + (
            if old(self).swapchain is Some {
                Seq::<DriverOp>::empty()
            } else {
                rebuild_ops(
                    old(self).command_pool,
                    old(driver).next,
                    old(driver).capabilities,
                    old(scene).entities@,
                )
            }) + frame_draw_ops(
                old(self).queue,
                old(self).image_available_semaphore,
                old(self).render_finished_semaphore,
                final(scene).entities@,
                old(driver).present_schedule@,
                old(driver).present_pos as nat,
                old(driver).acquire_counter,
                true,
                if old(self).swapchain is Some {
                    (old(self).swapchain->Some_0).handle
                } else {
                    old(driver).next
                },
                if old(self).swapchain is Some {
                    (old(self).swapchain->Some_0).images@.len()
                } else {
                    old(driver).capabilities.image_count()
                },
            ),
    {
        let ghost orig = scene.entities@;
        let ghost n0 = old(driver).capabilities.image_count();
        if self.swapchain.is_none() {
            let rebuilt = self.recreate_swapchain(driver);
            match rebuilt {
                Ok(u) => {},
                Err(_) => {
                    proof {
                        assert(false);
                    }
                },
            }
            let ghost d_rb = *driver;
            proof {
                driver.lemma_has_entry_is_live(
                    LiveEntry {
                        handle: self.command_pool,
                        kind: HandleKind::CommandPool,
                        parent: 0,
                    },
                );
            }
            driver.reset_command_pool(self.command_pool);
            proof {
                let sc1 = self.swapchain->Some_0;
                d_rb.lemma_live_entry_bounds(
                    LiveEntry {
                        handle: self.command_pool,
                        kind: HandleKind::CommandPool,
                        parent: 0,
                    },
                );
                assert(self.wf(*driver));
                assert(old(self).discard_ops() =~= Seq::<DriverOp>::empty());
                assert(sc1.build_ops() =~= build_ops_at(
                    old(driver).next,
                    old(driver).capabilities,
                ));
                assert(driver.trace@ =~= old(driver).trace@ + seq![DriverOp::WaitIdle]
                    + build_ops_at(old(driver).next, old(driver).capabilities) + seq![
                    DriverOp::ResetCommandPool(old(self).command_pool),
                ]);
                assert(driver.next == (old(driver).next + SwapChain::build_cost(
                    old(driver).capabilities,
                )) as u64);
            }
            let ghost self1 = *self;
            let n: u64 = match &self.swapchain {
                Option::Some(sc) => sc.framebuffers.len() as u64,
                Option::None => {
                    proof {
                        assert(false);
                    }
                    0
                },
            };
            let count = scene.entities.len();
            proof {
                assert(orig.subrange(0, count as int) =~= orig);
            }
            let mut processed: Vec<Entity> = Vec::new();
            let mut j: usize = 0;
            while j < count
                invariant
                    count == orig.len(),
                    orig == old(scene).entities@,
                    old(self).scene_wf(*old(scene), *old(driver)),
                    old(self).swapchain is None,
                    scene.entities@ == orig.subrange(j as int, count as int),
                    0 <= j <= count,
                    processed@.len() == j,
                    *self == self1,
                    *self == (VulkanRenderingEngine {
                        swapchain: self.swapchain,
                        ..*old(self)
                    }),
                    self.swapchain matches Option::Some(sc1),
                    (self.swapchain->Some_0).framebuffers@.len() == n as nat,
                    n as nat == n0,
                    driver.inv(),
                    self.wf(*driver),
                    driver.same_surface(*old(driver)),
                    driver.present_schedule@ == old(driver).present_schedule@,
                    driver.present_pos == old(driver).present_pos,
                    driver.acquire_counter == old(driver).acquire_counter,
                    driver.trace@ + rerecord_ops(
                        orig.subrange(j as int, count as int),
                        driver.next,
                        n0,
                    ) == old(driver).trace@ + rebuild_ops(
                        old(self).command_pool,
                        old(driver).next,
                        old(driver).capabilities,
                        orig,
                    ),
                    driver.can_create(
                        scene_rerecord_cost(orig.subrange(j as int, count as int), n0),
                    ),
                    forall|k: int|
                        j <= k < count ==> ((#[trigger] orig[k]).vulkan_render_object is Some
                            ==> ((orig[k].vulkan_render_object->Some_0).vertex_buffer.wf(*driver)
                            && (orig[k].vulkan_render_object->Some_0).index_buffer.wf(*driver))),
                    forall|k: int|
                        0 <= k < j ==> {
                            let oe = #[trigger] orig[k];
                            let ne = processed@[k];
                            &&& self.entity_wf(ne, *driver)
                            &&& ne.render_object == oe.render_object
                            &&& (ne.vulkan_render_object is Some <==> oe.vulkan_render_object
                                is Some)
                            &&& (oe.vulkan_render_object is Some ==> (
                            ne.vulkan_render_object->Some_0).vertex_buffer == (
                            oe.vulkan_render_object->Some_0).vertex_buffer && (
                            ne.vulkan_render_object->Some_0).index_buffer == (
                            oe.vulkan_render_object->Some_0).index_buffer && (
                            ne.vulkan_render_object->Some_0).command_buffers@.len() == n0)
                        },
                decreases count - j,
            {
                proof {
                    assert(orig.subrange(j as int, count as int).drop_first() =~= orig.subrange(
                        j + 1 as int,
                        count as int,
                    ));
                    assert(orig.subrange(j as int, count as int)[0] == orig[j as int]);
                }
                let ent = scene.entities.remove(0);
                proof {
                    assert(scene.entities@ =~= orig.subrange(j + 1 as int, count as int));
                }
                let Entity { render_object, vulkan_render_object } = ent;
                let ghost d_pre = *driver;
                let new_vro: Option<VulkanRenderObject> = match vulkan_render_object {
                    Option::Some(o) => {
                        let VulkanRenderObject { vertex_buffer, index_buffer, command_buffers } = o;
                        let recorded = self.create_command_buffers(
                            driver,
                            &vertex_buffer,
                            &index_buffer,
                        );
                        let cbs = match recorded {
                            Ok(c) => c,
                            Err(_) => {
                                proof {
                                    assert(false);
                                }
                                return Vec::new();
                            },
                        };
                        Option::Some(
                            VulkanRenderObject { vertex_buffer, index_buffer, command_buffers: cbs },
                        )
                    },
                    Option::None => Option::None,
                };
                proof {
                    let remaining = orig.subrange(j as int, count as int);
                    let rest = orig.subrange(j + 1 as int, count as int);
                    if orig[j as int].vulkan_render_object is Some {
                        assert(rerecord_ops(remaining, d_pre.next, n0) == create_ops(
                            HandleKind::CommandBuffer,
                            Seq::new(n0, |k: int| (d_pre.next + k) as u64),
                        ) + rerecord_ops(rest, (d_pre.next + n0) as u64, n0));
                        assert(driver.trace@ =~= d_pre.trace@ + create_ops(
                            HandleKind::CommandBuffer,
                            Seq::new(n0, |k: int| (d_pre.next + k) as u64),
                        ));
                        assert(driver.trace@ + rerecord_ops(rest, driver.next, n0)
                            =~= d_pre.trace@ + rerecord_ops(remaining, d_pre.next, n0));
                    } else {
                        assert(rerecord_ops(remaining, d_pre.next, n0) == rerecord_ops(
                            rest,
                            d_pre.next,
                            n0,
                        ));
                    }
                }
                proof {
                    let oe = orig[j as int];
                    assert(old(scene).entities@[j as int] == oe);
                    assert(old(self).entity_wf(oe, *old(driver)));
                    let ne = Entity { render_object, vulkan_render_object: new_vro };
                    assert(self.entity_wf(ne, *driver)) by {
                        if ne.vulkan_render_object is Some {
                            let no = ne.vulkan_render_object->Some_0;
                            assert forall|a: int, b: int|
                                0 <= a < b < no.command_buffers@.len() implies (
                            #[trigger] no.command_buffers@[a]).handle != (
                            #[trigger] no.command_buffers@[b]).handle by {
                                assert(no.command_buffers@[a].handle != no.command_buffers@[b].handle);
                            }
                        }
                    }
                }
                processed.push(Entity { render_object, vulkan_render_object: new_vro });
                j = j + 1;
                proof {
                    assert forall|k: int| 0 <= k < j implies self.entity_wf(
                        #[trigger] processed@[k],
                        *driver,
                    ) by {
                        let oek = orig[k];
                    }
                }
            }
            scene.entities = processed;
            proof {
                assert forall|i: int| 0 <= i < scene.entities@.len() implies self.entity_wf(
                    #[trigger] scene.entities@[i],
                    *driver,
                ) by {
                    let oe = orig[i];
                    assert(self.entity_wf(processed@[i], *driver));
                }
                assert(orig.subrange(count as int, count as int) =~= Seq::<Entity>::empty());
                assert(driver.trace@ =~= driver.trace@ + rerecord_ops(
                    orig.subrange(count as int, count as int),
                    driver.next,
                    n0,
                ));
                assert(driver.trace@ == old(driver).trace@ + rebuild_ops(
                    old(self).command_pool,
                    old(driver).next,
                    old(driver).capabilities,
                    orig,
                ));
            }
        }
        let ghost scene_b = scene.entities@;
        let ghost self_b = *self;
        let ghost sched0 = driver.present_schedule@;
        let ghost pos0 = driver.present_pos as nat;
        let ghost counter0 = driver.acquire_counter;
        let ghost trace_b0 = driver.trace@;
        let ghost chain1 = (self.swapchain->Some_0).handle;
        let ghost n1 = (self.swapchain->Some_0).images@.len();
        let count2 = scene.entities.len();
        proof {
            assert(self.swapchain is Some);
            assert(scene_b.subrange(0, count2 as int) =~= scene_b);
        }
        let mut outcomes: Vec<DrawOutcome> = Vec::new();
        let mut i: usize = 0;
        while i < count2
            invariant
                count2 == scene.entities@.len(),
                scene.entities@ == scene_b,
                outcomes@.len() == i,
                0 <= i <= count2,
                driver.inv(),
                self.wf(*driver),
                self.scene_wf(*scene, *driver),
                driver.same_surface(*old(driver)),
                *self == (VulkanRenderingEngine { swapchain: self.swapchain, ..self_b }),
                self_b == (VulkanRenderingEngine { swapchain: self_b.swapchain, ..*old(self) }),
                self_b.swapchain is Some,
                (self.swapchain is None <==> exists|j: int|
                    0 <= j < i && outcomes@[j] == DrawOutcome::Invalidated),
                (self.swapchain is Some ==> self.swapchain == self_b.swapchain),
                forall|k: int|
                    0 <= k < i && (#[trigger] scene_b[k]).vulkan_render_object is None
                        ==> outcomes@[k] == DrawOutcome::Skipped,
                sched0 == old(driver).present_schedule@,
                pos0 == old(driver).present_pos as nat,
                counter0 == old(driver).acquire_counter,
                driver.present_schedule@ == sched0,
                n1 >= 1,
                (self_b.swapchain->Some_0).handle == chain1,
                (self_b.swapchain->Some_0).images@.len() == n1,
                chain1 == (if old(self).swapchain is Some {
                    (old(self).swapchain->Some_0).handle
                } else {
                    old(driver).next
                }),
                n1 == (if old(self).swapchain is Some {
                    (old(self).swapchain->Some_0).images@.len()
                } else {
                    old(driver).capabilities.image_count()
                }),
                trace_b0 == old(driver).trace@ + (
                if old(self).swapchain is Some {
                    Seq::<DriverOp>::empty()
                } else {
                    rebuild_ops(
                        old(self).command_pool,
                        old(driver).next,
                        old(driver).capabilities,
                        old(scene).entities@,
                    )
                }),
                frame_outcomes(scene_b, sched0, pos0, true) == outcomes@ + frame_outcomes(
                    scene_b.subrange(i as int, count2 as int),
                    sched0,
                    driver.present_pos as nat,
                    self.swapchain is Some,
                ),
                trace_b0 + frame_draw_ops(
                    self_b.queue,
                    self_b.image_available_semaphore,
                    self_b.render_finished_semaphore,
                    scene_b,
                    sched0,
                    pos0,
                    counter0,
                    true,
                    chain1,
                    n1,
                ) == driver.trace@ + frame_draw_ops(
                    self_b.queue,
                    self_b.image_available_semaphore,
                    self_b.render_finished_semaphore,
                    scene_b.subrange(i as int, count2 as int),
                    sched0,
                    driver.present_pos as nat,
                    driver.acquire_counter,
                    self.swapchain is Some,
                    chain1,
                    n1,
                ),
            decreases count2 - i,
        {
            let ghost prev_out = outcomes@;
            let ghost chain_at_entry = self.swapchain;
            let ghost d_pre = *driver;
            proof {
                assert(scene_b.subrange(i as int, count2 as int)[0] == scene_b[i as int]);
                assert(scene_b.subrange(i as int, count2 as int).drop_first() =~= scene_b.subrange(
                    i + 1 as int,
                    count2 as int,
                ));
            }
            let has_state = scene.entities[i].vulkan_render_object.is_some();
            let chain_present = self.swapchain.is_some();
            let out: DrawOutcome = if !has_state || !chain_present {
                DrawOutcome::Skipped
            } else {
                let ent = &scene.entities[i];
                let o = match &ent.vulkan_render_object {
                    Option::Some(o) => o,
                    Option::None => {
                        proof {
                            assert(false);
                        }
                        return Vec::new();
                    },
                };
                proof {
                    let sc = self.swapchain->Some_0;
                    assert(o.matches_swapchain(sc));
                    assert forall|k: int| 0 <= k < o.command_buffers@.len() implies driver.is_live(
                        (#[trigger] o.command_buffers@[k]).handle,
                    ) by {
                        driver.lemma_has_entry_is_live(
                            LiveEntry {
                                handle: o.command_buffers@[k].handle,
                                kind: HandleKind::CommandBuffer,
                                parent: self.command_pool,
                            },
                        );
                    }
                }
                let drawn = self.render_object(driver, o.command_buffers());
                match drawn {
                    Ok(u) => {
                        if self.swapchain.is_none() {
                            DrawOutcome::Invalidated
                        } else {
                            DrawOutcome::Presented
                        }
                    },
                    Err(RenderError::Driver(e)) => DrawOutcome::Failed(e),
                    Err(_) => {
                        proof {
                            assert(false);
                        }
                        DrawOutcome::Skipped
                    },
                }
            };
            outcomes.push(out);
            proof {
                let remaining = scene_b.subrange(i as int, count2 as int);
                let rest = scene_b.subrange(i + 1 as int, count2 as int);
                let q = self_b.queue;
                let ia = self_b.image_available_semaphore;
                let rf = self_b.render_finished_semaphore;
                if !has_state || !(chain_at_entry is Some) {
                    assert(out == DrawOutcome::Skipped);
                    assert(*driver == d_pre);
                    assert(frame_outcomes(remaining, sched0, d_pre.present_pos as nat, chain_at_entry is Some)
                        == seq![DrawOutcome::Skipped] + frame_outcomes(
                        rest,
                        sched0,
                        d_pre.present_pos as nat,
                        chain_at_entry is Some,
                    ));
                    assert(prev_out + frame_outcomes(remaining, sched0, d_pre.present_pos as nat, chain_at_entry is Some)
                        =~= outcomes@ + frame_outcomes(
                        rest,
                        sched0,
                        d_pre.present_pos as nat,
                        chain_at_entry is Some,
                    ));
                    assert(frame_draw_ops(q, ia, rf, remaining, sched0, d_pre.present_pos as nat, d_pre.acquire_counter, chain_at_entry is Some, chain1, n1)
                        == frame_draw_ops(q, ia, rf, rest, sched0, d_pre.present_pos as nat, d_pre.acquire_counter, chain_at_entry is Some, chain1, n1));
                } else {
                    let po = scheduled_outcome(sched0, d_pre.present_pos as nat);
                    assert(po == d_pre.next_present_outcome());
                    assert(out == outcome_of(po));
                    assert(driver.present_pos as nat == next_schedule_pos(
                        sched0,
                        d_pre.present_pos as nat,
                    ));
                    let idxn = (d_pre.acquire_counter as nat) % n1;
                    assert(d_pre.acquire_counter % (n1 as u64) == idxn as u64);
                    assert(driver.acquire_counter == (idxn + 1) as u64);
                    assert((self.swapchain is Some) == (chain_at_entry is Some
                        && !invalidating(po)));
                    let cbs_i = (scene_b[i as int].vulkan_render_object->Some_0).command_buffers@;
                    assert(driver.trace@ =~= d_pre.trace@ + draw_ops(
                        q,
                        ia,
                        rf,
                        chain1,
                        idxn as u64,
                        cbs_i,
                    ));
                    assert(frame_outcomes(remaining, sched0, d_pre.present_pos as nat, true)
                        == seq![outcome_of(po)] + frame_outcomes(
                        rest,
                        sched0,
                        next_schedule_pos(sched0, d_pre.present_pos as nat),
                        !invalidating(po),
                    ));
                    assert(prev_out + frame_outcomes(remaining, sched0, d_pre.present_pos as nat, true)
                        =~= outcomes@ + frame_outcomes(
                        rest,
                        sched0,
                        driver.present_pos as nat,
                        self.swapchain is Some,
                    ));
                    assert(frame_draw_ops(q, ia, rf, remaining, sched0, d_pre.present_pos as nat, d_pre.acquire_counter, true, chain1, n1)
                        == draw_ops(q, ia, rf, chain1, idxn as u64, cbs_i) + frame_draw_ops(
                        q,
                        ia,
                        rf,
                        rest,
                        sched0,
                        next_schedule_pos(sched0, d_pre.present_pos as nat),
                        (idxn + 1) as u64,
                        !invalidating(po),
                        chain1,
                        n1,
                    ));
                    assert(d_pre.trace@ + frame_draw_ops(q, ia, rf, remaining, sched0, d_pre.present_pos as nat, d_pre.acquire_counter, true, chain1, n1)
                        =~= driver.trace@ + frame_draw_ops(
                        q,
                        ia,
                        rf,
                        rest,
                        sched0,
                        driver.present_pos as nat,
                        driver.acquire_counter,
                        self.swapchain is Some,
                        chain1,
                        n1,
                    ));
                }
                assert(outcomes@ == prev_out.push(out));
                assert(outcomes@[i as int] == out);
                if self.swapchain is None {
                    if out == DrawOutcome::Invalidated {
                        assert(exists|jj: int|
                            0 <= jj < i + 1 && outcomes@[jj] == DrawOutcome::Invalidated);
                    } else {
                        assert(chain_at_entry is None);
                        let w = choose|jj: int|
                            0 <= jj < i && prev_out[jj] == DrawOutcome::Invalidated;
                        assert(outcomes@[w] == DrawOutcome::Invalidated);
                    }
                } else {
                    assert(out != DrawOutcome::Invalidated);
                    assert forall|jj: int|
                        0 <= jj < i + 1 implies #[trigger] outcomes@[jj]
                        != DrawOutcome::Invalidated by {
                        if jj < i {
                            assert(outcomes@[jj] == prev_out[jj]);
                        }
                    }
                }
            }
            i = i + 1;
        }
        proof {
            assert(scene_b.subrange(count2 as int, count2 as int) =~= Seq::<Entity>::empty());
            assert(outcomes@ == frame_outcomes(scene_b, sched0, pos0, true));
            assert(driver.trace@ == trace_b0 + frame_draw_ops(
                self_b.queue,
                self_b.image_available_semaphore,
                self_b.render_finished_semaphore,
                scene_b,
                sched0,
                pos0,
                counter0,
                true,
                chain1,
                n1,
            ));
            assert(driver.trace@ =~= old(driver).trace@ + (
            if old(self).swapchain is Some {
                Seq::<DriverOp>::empty()
            } else {
                rebuild_ops(
                    old(self).command_pool,
                    old(driver).next,
                    old(driver).capabilities,
                    old(scene).entities@,
                )
            }) + frame_draw_ops(
                old(self).queue,
                old(self).image_available_semaphore,
                old(self).render_finished_semaphore,
                scene_b,
                sched0,
                pos0,
                counter0,
                true,
                chain1,
                n1,
            ));
        }
        outcomes
    }

    /// The device handle, as a non-owning reference.
    pub fn device(&self) -> (h: Handle)
        ensures
            h == self.device.handle,
    {
        self.device.handle
    }

    /// The command pool handle, as a non-owning reference.
    pub fn command_pool(&self) -> (h: Handle)
        ensures
            h == self.command_pool,
    {
        self.command_pool
    }

    /// Query the surface's current capability snapshot.
    pub fn get_capabilities(&self, driver: &Driver) -> (c: Capabilities)
        ensures
            c == driver.capabilities,
    {
        driver.capabilities
    }

    /// Allocate a GPU-resident buffer holding `data`, through the staging
    /// upload path, blocking until the upload completes.
    pub fn create_buffer(&self, driver: &mut Driver, buffer_type: BufferType, data: &Vec<u8>,
        element_size: u64) -> (r: Result<Buffer, RenderError>)
        requires
            old(driver).inv(),
            self.wf(*old(driver)),
            element_size >= 1,
            data@.len() % (element_size as nat) == 0,
        ensures
            final(driver).inv(),
            self.wf(*final(driver)),
            (r matches Ok(b) <==> old(driver).can_create(3)),
            (r matches Err(e) ==> e == RenderError::Driver(DriverError::OutOfMemory)
                && *final(driver) == *old(driver)),
            (r matches Ok(b) ==> {
                &&& b.data@ == data@
                &&& b.buffer_type == buffer_type
                &&& b.element_size == element_size
                &&& b.element_count == data@.len() / (element_size as nat)
                &&& b.wf(*final(driver))
                &&& b.handle == old(driver).next + 1
                &&& final(driver).trace@ == old(driver).trace@ + Buffer::upload_ops(
                    old(driver).next,
                    self.queue,
                )
                &&& final(driver).next == old(driver).next + 3
                &&& final(driver).budget == budget_minus(old(driver).budget, 3)
                &&& final(driver).same_platform(*old(driver))
                &&& forall|e: LiveEntry|
                    #[trigger] final(driver).has_entry(e) <==> (old(driver).has_entry(e) || e
                        == LiveEntry { handle: b.handle, kind: HandleKind::Buffer, parent: 0 })
            }),
    {
        proof {
            (*old(driver)).lemma_has_entry_is_live(
                LiveEntry { handle: self.device.handle, kind: HandleKind::Device, parent: 0 },
            );
            (*old(driver)).lemma_has_entry_is_live(
                LiveEntry { handle: self.command_pool, kind: HandleKind::CommandPool, parent: 0 },
            );
            (*old(driver)).lemma_has_entry_is_live(
                LiveEntry { handle: self.queue, kind: HandleKind::Queue, parent: self.device.handle },
            );
        }
        let r = Buffer::new_buffer_with_data(
            driver,
            &self.device,
            data,
            element_size,
            buffer_type,
            self.command_pool,
            self.queue,
        );
        match r {
            Ok(b) => Ok(b),
            Err(e) => Err(RenderError::Driver(e)),
        }
    }

    /// Allocate and record one primary-level command buffer per swapchain
    /// framebuffer: begin the render pass over that framebuffer with an
    /// opaque-black clear value, bind the pipeline, bind the vertex buffer
    /// and the 32-bit index buffer at offset 0, draw the full index count as
    /// one instance.
    ///
    /// Fails exactly when the driver cannot complete the allocations; on
    /// failure nothing is allocated.
    pub fn create_command_buffers(&self, driver: &mut Driver, vertex_buffer: &Buffer,
        index_buffer: &Buffer) -> (r: Result<Vec<RecordedCommandBuffer>, RenderError>)
        requires
            old(driver).inv(),
            self.wf(*old(driver)),
            self.swapchain matches Option::Some(osc),
        ensures
            final(driver).inv(),
            self.wf(*final(driver)),
            (r matches Ok(cbs) <==> old(driver).can_create(
                (self.swapchain->Some_0).framebuffers@.len(),
            )),
            (r matches Err(e) ==> e == RenderError::Driver(DriverError::OutOfMemory)
                && *final(driver) == *old(driver)),
            (r matches Ok(cbs) ==> {
                let sc = self.swapchain->Some_0;
                let n = sc.framebuffers@.len();
                &&& cbs@.len() == n
                &&& forall|k: int|
                    0 <= k < n ==> (#[trigger] cbs@[k]) == (RecordedCommandBuffer {
                        handle: (old(driver).next + k) as u64,
                        level: CommandBufferLevel::Primary,
                        framebuffer: sc.framebuffers@[k],
                        render_pass: sc.render_pass,
                        pipeline: sc.pipeline,
                        vertex_buffer: vertex_buffer.handle,
                        index_buffer: index_buffer.handle,
                        index_count: index_buffer.element_count,
                        extent_width: sc.extent_width,
                        extent_height: sc.extent_height,
                        clear_red: 0,
                        clear_green: 0,
                        clear_blue: 0,
                        clear_alpha: 255,
                    })
                &&& forall|k: int|
                    0 <= k < n ==> final(driver).has_entry(
                        LiveEntry {
                            handle: (#[trigger] cbs@[k]).handle,
                            kind: HandleKind::CommandBuffer,
                            parent: self.command_pool,
                        },
                    )
                &&& final(driver).live@ == old(driver).live@ + crate::driver::run_entries(
                    HandleKind::CommandBuffer,
                    self.command_pool,
                    old(driver).next,
                    n,
                )
                &&& final(driver).trace@ == old(driver).trace@ + create_ops(
                    HandleKind::CommandBuffer,
                    Seq::new(n, |k: int| (old(driver).next + k) as u64),
                )
                &&& final(driver).next == old(driver).next + n
                &&& final(driver).budget == budget_minus(old(driver).budget, n)
                &&& final(driver).same_platform(*old(driver))
                &&& forall|e: LiveEntry|
                    #[trigger] final(driver).has_entry(e) <==> (old(driver).has_entry(e)
                        || crate::driver::run_entries(
                        HandleKind::CommandBuffer,
                        self.command_pool,
                        old(driver).next,
                        n,
                    ).contains(e))
            }),
    {
        let (chain_fbs, render_pass, pipeline, ew, eh): (&Vec<Handle>, Handle, Handle, u32, u32) =
            match &self.swapchain {
            Option::Some(sc) => (
                &sc.framebuffers,
                sc.render_pass,
                sc.pipeline,
                sc.extent_width,
                sc.extent_height,
            ),
            Option::None => {
                proof {
                    assert(false);
                }
                return Err(RenderError::DeviceGone);
            },
        };
        let n = chain_fbs.len();
        if !driver.can_alloc(n as u64) {
            return Err(RenderError::Driver(DriverError::OutOfMemory));
        }
        proof {
            (*old(driver)).lemma_has_entry_is_live(
                LiveEntry { handle: self.command_pool, kind: HandleKind::CommandPool, parent: 0 },
            );
        }
        let ghost d0 = *driver;
        let handles = driver.allocate_run(HandleKind::CommandBuffer, self.command_pool, n as u64);
        let mut cbs: Vec<RecordedCommandBuffer> = Vec::new();
        let mut k: usize = 0;
        while k < n
            invariant
                n == chain_fbs@.len(),
                handles@.len() == n,
                0 <= k <= n,
                cbs@.len() == k,
                forall|j: int| 0 <= j < n ==> handles@[j] == d0.next + j,
                forall|j: int|
                    0 <= j < k ==> (#[trigger] cbs@[j]) == (RecordedCommandBuffer {
                        handle: handles@[j],
                        level: CommandBufferLevel::Primary,
                        framebuffer: chain_fbs@[j],
                        render_pass: render_pass,
                        pipeline: pipeline,
                        vertex_buffer: vertex_buffer.handle,
                        index_buffer: index_buffer.handle,
                        index_count: index_buffer.element_count,
                        extent_width: ew,
                        extent_height: eh,
                        clear_red: 0,
                        clear_green: 0,
                        clear_blue: 0,
                        clear_alpha: 255,
                    }),
            decreases n - k,
        {
            let rec = RecordedCommandBuffer {
                handle: handles[k],
                level: CommandBufferLevel::Primary,
                framebuffer: chain_fbs[k],
                render_pass: render_pass,
                pipeline: pipeline,
                vertex_buffer: vertex_buffer.buffer(),
                index_buffer: index_buffer.buffer(),
                index_count: index_buffer.element_count(),
                extent_width: ew,
                extent_height: eh,
                clear_red: 0,
                clear_green: 0,
                clear_blue: 0,
                clear_alpha: 255,
            };
            cbs.push(rec);
            k = k + 1;
        }
        proof {
            let nn = chain_fbs@.len();
            assert(create_ops(HandleKind::CommandBuffer, handles@) =~= create_ops(
                HandleKind::CommandBuffer,
                Seq::new(nn, |j: int| (d0.next + j) as u64),
            ));
            assert forall|j: int| 0 <= j < nn implies driver.has_entry(
                LiveEntry {
                    handle: (#[trigger] cbs@[j]).handle,
                    kind: HandleKind::CommandBuffer,
                    parent: self.command_pool,
                },
            ) by {
                assert(driver.live@[d0.live@.len() + j] == LiveEntry {
                    handle: cbs@[j].handle,
                    kind: HandleKind::CommandBuffer,
                    parent: self.command_pool,
                });
            }
        }
        Ok(cbs)
    }

    /// Submit one drawable's command buffer and present: acquire the next
    /// image (signaling the image-available semaphore), submit the matching
    /// command buffer to the graphics queue waiting on image-available at
    /// the color-attachment-output stage and signaling render-finished,
    /// present the image waiting on render-finished, then block until the
    /// queue is idle — also when the present call failed, so at most one
    /// frame is ever in flight. A present outcome of out-of-date or
    /// suboptimal discards the swapchain; a present failure is returned for
    /// the frame loop to log and skip.
    #[verifier::rlimit(100)]
    pub fn render_object(&mut self, driver: &mut Driver, command_buffers: &Vec<
        RecordedCommandBuffer,
    >) -> (r: Result<(), RenderError>)
        requires
            old(driver).inv(),
            old(self).wf(*old(driver)),
            old(self).swapchain matches Option::Some(osc),
            command_buffers@.len() == (old(self).swapchain->Some_0).images@.len(),
            forall|k: int|
                0 <= k < command_buffers@.len() ==> old(driver).is_live(
                    (#[trigger] command_buffers@[k]).handle,
                ),
        ensures
            final(driver).inv(),
            final(self).wf(*final(driver)),
            final(driver).same_ledger(*old(driver)),
            final(driver).same_surface(*old(driver)),
            final(driver).present_schedule@ == old(driver).present_schedule@,
            final(driver).present_pos == (if old(driver).present_pos < old(
                driver,
            ).present_schedule@.len() {
                old(driver).present_pos + 1
            } else {
                old(driver).present_pos as int
            }),
            final(driver).acquire_counter == old(driver).acquire_counter % ((old(
                self,
            ).swapchain->Some_0).images@.len() as u64) + 1,
            (r matches Ok(u) <==> !(old(driver).next_present_outcome() matches
                PresentOutcome::Failure(f))),
            *final(self) == (VulkanRenderingEngine {
                swapchain: final(self).swapchain,
                ..*old(self)
            }),
            (final(self).swapchain is None <==> (old(driver).next_present_outcome()
                == PresentOutcome::OutOfDate || old(driver).next_present_outcome()
                == PresentOutcome::Suboptimal)),
            (final(self).swapchain is Some ==> final(self).swapchain == old(self).swapchain),
            final(driver).trace@ == old(driver).trace@ + draw_ops(
                old(self).queue,
                old(self).image_available_semaphore,
                old(self).render_finished_semaphore,
                (old(self).swapchain->Some_0).handle,
                old(driver).acquire_counter % ((old(self).swapchain->Some_0).images@.len() as u64),
                command_buffers@,
            ),
            (r matches Err(e) ==> e == RenderError::Driver(
                old(driver).next_present_outcome()->Failure_0,
            )),
    {
        let (chain, n): (Handle, u64) = match &self.swapchain {
            Option::Some(sc) => (sc.handle, sc.images.len() as u64),
            Option::None => {
                proof {
                    assert(false);
                }
                return Err(RenderError::DeviceGone);
            },
        };
        proof {
            let sc = self.swapchain->Some_0;
            (*old(driver)).lemma_has_entry_is_live(
                LiveEntry { handle: sc.handle, kind: HandleKind::Swapchain, parent: 0 },
            );
            (*old(driver)).lemma_has_entry_is_live(
                LiveEntry { handle: self.queue, kind: HandleKind::Queue, parent: self.device.handle },
            );
        }
        proof {
            (*old(driver)).lemma_has_entry_is_live(
                LiveEntry {
                    handle: self.image_available_semaphore,
                    kind: HandleKind::Semaphore,
                    parent: 0,
                },
            );
            (*old(driver)).lemma_has_entry_is_live(
                LiveEntry {
                    handle: self.render_finished_semaphore,
                    kind: HandleKind::Semaphore,
                    parent: 0,
                },
            );
        }
        let image_index = driver.acquire_next_image(chain, n, self.image_available_semaphore);
        driver.queue_submit(
            self.queue,
            command_buffers[image_index as usize].handle,
            Option::Some(self.image_available_semaphore),
            Option::Some(PipelineStage::ColorAttachmentOutput),
            Option::Some(self.render_finished_semaphore),
        );
        let outcome = driver.present(chain, image_index, self.render_finished_semaphore);
        let failure: Option<DriverError> = match outcome {
            PresentOutcome::Success => Option::None,
            PresentOutcome::Suboptimal => {
                self.swapchain = Option::None;
                Option::None
            },
            PresentOutcome::OutOfDate => {
                self.swapchain = Option::None;
                Option::None
            },
            PresentOutcome::Failure(e) => Option::Some(e),
        };
        driver.wait_idle();
        match failure {
            Option::None => Ok(()),
            Option::Some(e) => Err(RenderError::Driver(e)),
        }
    }

    /// The destroy calls a swapchain discard makes: the teardown of the old
    /// chain, if one is present.
    pub open spec fn discard_ops(self) -> Seq<DriverOp> {
        match self.swapchain {
            Option::Some(sc) => sc.teardown_ops(),
            Option::None => Seq::<DriverOp>::empty(),
        }
    }

    /// Whether a ledger entry is untouched by a swapchain discard.
    pub open spec fn survives_discard(self, e: LiveEntry) -> bool {
        match self.swapchain {
            Option::Some(sc) => sc.survives_teardown(e),
            Option::None => true,
        }
    }

    /// Block until the device is idle (no in-flight use of the chain),
    /// discard the swapchain in the documented teardown order, and rebuild
    /// it from a fresh capability snapshot.
    ///
    /// Fails exactly when the driver cannot complete the rebuild's
    /// creations; the old chain is then already gone, and the swapchain
    /// stays absent.
    #[verifier::rlimit(100)]
    pub fn recreate_swapchain(&mut self, driver: &mut Driver) -> (r: Result<(), RenderError>)
        requires
            old(driver).inv(),
            old(self).wf(*old(driver)),
        ensures
            final(driver).inv(),
            final(self).wf(*final(driver)),
            *final(self) == (VulkanRenderingEngine {
                swapchain: final(self).swapchain,
                ..*old(self)
            }),
            (r matches Ok(u) <==> old(driver).can_create(
                SwapChain::build_cost(old(driver).capabilities),
            )),
            (r matches Err(e) ==> e == RenderError::Driver(DriverError::OutOfMemory)
                && final(self).swapchain is None && final(driver).trace@ == old(
                driver,
            ).trace@.push(DriverOp::WaitIdle) + old(self).discard_ops() && final(driver).next
                == old(driver).next && final(driver).budget == old(driver).budget),
            final(driver).same_platform(*old(driver)),
            forall|e: LiveEntry|
                (old(driver).has_entry(e) && old(self).survives_discard(e))
                    ==> #[trigger] final(driver).has_entry(e),
            (r matches Ok(u) ==> {
                &&& final(self).swapchain matches Option::Some(sc)
                &&& sc.image_count() == old(driver).capabilities.image_count()
                &&& sc.format == old(driver).capabilities.format
                &&& sc.extent_width == old(driver).capabilities.width
                &&& sc.extent_height == old(driver).capabilities.height
                &&& sc.device == old(self).device.handle
                &&& sc.handle == old(driver).next
                &&& final(driver).trace@ == old(driver).trace@.push(DriverOp::WaitIdle) + old(
                    self,
                ).discard_ops() + sc.build_ops()
                &&& final(driver).next == old(driver).next + SwapChain::build_cost(
                    old(driver).capabilities,
                )
                &&& final(driver).budget == budget_minus(
                    old(driver).budget,
                    SwapChain::build_cost(old(driver).capabilities),
                )
                &&& forall|e: LiveEntry|
                    #[trigger] final(driver).has_entry(e) <==> ((old(driver).has_entry(e) && old(
                        self,
                    ).survives_discard(e)) || sc.build_entries().contains(e))
            }),
    {
        driver.wait_idle();
        let ghost d1 = *driver;
        match &self.swapchain {
            Option::Some(sc) => {
                proof {
                    d1.lemma_has_entry_is_live(
                        LiveEntry {
                            handle: self.device.handle,
                            kind: HandleKind::Device,
                            parent: 0,
                        },
                    );
                }
                let tr = sc.teardown(driver);
                proof {
                    assert(tr matches Ok(u));
                }
            },
            Option::None => {},
        }
        self.swapchain = Option::None;
        let ghost d2 = *driver;
        proof {
            let de = LiveEntry { handle: self.device.handle, kind: HandleKind::Device, parent: 0 };
            let se = LiveEntry { handle: self.surface, kind: HandleKind::Surface, parent: 0 };
            match old(self).swapchain {
                Option::Some(osc) => {
                    d1.lemma_live_entry_bounds(
                        LiveEntry {
                            handle: old(self).render_finished_semaphore,
                            kind: HandleKind::Semaphore,
                            parent: 0,
                        },
                    );
                    crate::swapchain::lemma_older_survives_teardown(osc, de);
                    crate::swapchain::lemma_older_survives_teardown(osc, se);
                },
                Option::None => {},
            }
            assert(d2.has_entry(de));
            assert(d2.has_entry(se));
            d2.lemma_has_entry_is_live(de);
            d2.lemma_has_entry_is_live(se);
            d2.lemma_live_entry_bounds(
                LiveEntry {
                    handle: old(self).render_finished_semaphore,
                    kind: HandleKind::Semaphore,
                    parent: 0,
                },
            );
        }
        let capabilities = driver.capabilities;
        let built = SwapChain::new(
            driver,
            self.device.vk_device(),
            self.surface,
            capabilities,
            capabilities.format,
            capabilities.present_mode,
        );
        match built {
            Ok(sc) => {
                self.swapchain = Option::Some(sc);
                proof {
                    assert forall|k: int| 0 <= k < 7 implies #[trigger] driver.has_entry(
                        old(self).base_entries()[k],
                    ) by {
                        assert(d2.has_entry(old(self).base_entries()[k])) by {
                            match old(self).swapchain {
                                Option::Some(osc) => {
                                    crate::swapchain::lemma_older_survives_teardown(
                                        osc,
                                        old(self).base_entries()[k],
                                    );
                                },
                                Option::None => {},
                            }
                        }
                        let idx = choose|idx: int|
                            0 <= idx < d2.live@.len() && d2.live@[idx] == old(self).base_entries()[k];
                        assert(driver.live@[idx] == old(self).base_entries()[k]);
                    }
                    assert(driver.trace@ =~= old(driver).trace@.push(DriverOp::WaitIdle) + old(
                        self,
                    ).discard_ops() + sc.build_ops());
                    assert forall|e: LiveEntry| #[trigger] driver.has_entry(e) implies ((d2
                        .has_entry(e)) || sc.build_entries().contains(e)) by {
                        let idx = choose|idx: int|
                            0 <= idx < driver.live@.len() && driver.live@[idx] == e;
                        if idx < d2.live@.len() {
                            assert(d2.live@[idx] == e);
                        } else {
                            assert(sc.build_entries()[idx - d2.live@.len()] == e);
                        }
                    }
                    assert forall|e: LiveEntry| d2.has_entry(e) implies #[trigger] driver
                        .has_entry(e) by {
                        let idx = choose|idx: int|
                            0 <= idx < d2.live@.len() && d2.live@[idx] == e;
                        assert(driver.live@[idx] == e);
                    }
                    assert forall|e: LiveEntry| sc.build_entries().contains(e) implies #[trigger] driver
                        .has_entry(e) by {
                        let idx = choose|idx: int|
                            0 <= idx < sc.build_entries().len() && sc.build_entries()[idx] == e;
                        assert(driver.live@[d2.live@.len() + idx] == e);
                    }
                }
                Ok(())
            },
            Err(e) => {
                proof {
                    assert(driver.trace@ =~= old(driver).trace@.push(DriverOp::WaitIdle) + old(
                        self,
                    ).discard_ops());
                }
                Err(e)
            },
        }
    }

    /// Tear the whole engine down, in dependency order: block until the
    /// device is idle, tear down the swapchain (if present), destroy the
    /// command pool (the driver releases its command buffers with it), the
    /// two semaphores, the device (the driver releases its queues with it),
    /// the surface, and the instance. Every handle the engine owns leaves
    /// the ledger; nothing else is touched.
    #[verifier::rlimit(100)]
    pub fn destroy(&self, driver: &mut Driver)
        requires
            old(driver).inv(),
            self.wf(*old(driver)),
        ensures
            final(driver).inv(),
            final(driver).trace@ == old(driver).trace@.push(DriverOp::WaitIdle)
                + self.discard_ops() + self.base_teardown_ops(),
            final(driver).next == old(driver).next,
            final(driver).budget == old(driver).budget,
            final(driver).same_platform(*old(driver)),
            forall|e: LiveEntry|
                #[trigger] final(driver).has_entry(e) <==> (old(driver).has_entry(e)
                    && self.survives_engine_teardown(e)),
    {
        driver.wait_idle();
        let ghost d1 = *driver;
        match &self.swapchain {
            Option::Some(sc) => {
                proof {
                    d1.lemma_has_entry_is_live(
                        LiveEntry {
                            handle: self.device.handle,
                            kind: HandleKind::Device,
                            parent: 0,
                        },
                    );
                }
                let tr = sc.teardown(driver);
                proof {
                    assert(tr matches Ok(u));
                }
            },
            Option::None => {},
        }
        let ghost d2 = *driver;
        proof {
            d1.lemma_live_entry_bounds(
                LiveEntry {
                    handle: self.render_finished_semaphore,
                    kind: HandleKind::Semaphore,
                    parent: 0,
                },
            );
            assert forall|k: int| 0 <= k < 7 implies #[trigger] d2.has_entry(
                self.base_entries()[k],
            ) by {
                match self.swapchain {
                    Option::Some(osc) => {
                        crate::swapchain::lemma_older_survives_teardown(
                            osc,
                            self.base_entries()[k],
                        );
                    },
                    Option::None => {},
                }
            }
            d2.lemma_has_entry_is_live(self.base_entries()[4]);
        }
        driver.destroy(HandleKind::CommandPool, self.command_pool);
        proof {
            assert(driver.has_entry(self.base_entries()[5]));
            driver.lemma_has_entry_is_live(self.base_entries()[5]);
        }
        driver.destroy(HandleKind::Semaphore, self.image_available_semaphore);
        proof {
            assert(driver.has_entry(self.base_entries()[6]));
            driver.lemma_has_entry_is_live(self.base_entries()[6]);
        }
        driver.destroy(HandleKind::Semaphore, self.render_finished_semaphore);
        proof {
            assert(driver.has_entry(self.base_entries()[2]));
            driver.lemma_has_entry_is_live(self.base_entries()[2]);
        }
        driver.destroy(HandleKind::Device, self.device.handle);
        proof {
            assert(driver.has_entry(self.base_entries()[1]));
            driver.lemma_has_entry_is_live(self.base_entries()[1]);
        }
        driver.destroy(HandleKind::Surface, self.surface);
        proof {
            assert(driver.has_entry(self.base_entries()[0]));
            driver.lemma_has_entry_is_live(self.base_entries()[0]);
        }
        driver.destroy(HandleKind::Instance, self.instance);
        proof {
            assert(driver.trace@ =~= old(driver).trace@.push(DriverOp::WaitIdle)
                + self.discard_ops() + self.base_teardown_ops());
        }
    }
}

} // verus!
