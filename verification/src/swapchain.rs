//! The presentation chain and everything drawn into it: images, one view and
//! one framebuffer per image, the render pass and the graphics pipeline.
//!
//! A swapchain is either absent (the engine holds `None`) or fully
//! constructed; it becomes invalid when the surface changes and is then torn
//! down in full, in strict dependency order, and rebuilt from a fresh
//! capability snapshot. It holds only a non-owning reference to the device:
//! teardown resolves that reference and reports a violation if the device is
//! already gone.

use vstd::prelude::*;

use crate::driver::{budget_minus, create_ops, destroy_ops, run_entries, Capabilities, Driver,
    LiveEntry};
use crate::handles::{DriverError, DriverOp, Handle, HandleKind, RenderError};

verus! {

/// A surface pixel format, as a driver-defined id.
pub type SurfaceFormat = u32;

/// A presentation mode, as a driver-defined id.
pub type PresentMode = u32;

/// The ledger entries for a vector of handles of one kind and parent.
pub open spec fn entries_of(kind: HandleKind, parent: Handle, hs: Seq<Handle>) -> Seq<LiveEntry> {
    Seq::new(hs.len(), |i: int| LiveEntry { handle: hs[i], kind, parent })
}

pub struct SwapChain {
    /// Non-owning reference to the device the chain was created from.
    pub device: Handle,
    /// The presentation chain handle.
    pub handle: Handle,
    /// The chain's images, owned by the driver through the chain.
    pub images: Vec<Handle>,
    /// One image view per image.
    pub image_views: Vec<Handle>,
    /// The render pass with a single color attachment matching `format`.
    pub render_pass: Handle,
    /// The pipeline layout the graphics pipeline was built with.
    pub pipeline_layout: Handle,
    /// The graphics pipeline bound to `render_pass`.
    pub pipeline: Handle,
    /// One framebuffer per image view, bound to `render_pass`.
    pub framebuffers: Vec<Handle>,
    /// The surface format the chain was built with.
    pub format: SurfaceFormat,
    /// The extent of the capability snapshot the chain was built from.
    pub extent_width: u32,
    pub extent_height: u32,
}

impl SwapChain {
    /// Number of images; equal to the view and framebuffer counts (see
    /// [`Self::wf`]).
    pub open spec fn image_count(self) -> nat {
        self.images@.len()
    }

    /// The handles are laid out as they were issued, in creation order:
    /// chain, images, views, render pass, pipeline layout, pipeline,
    /// framebuffers.
    pub open spec fn handle_layout(self) -> bool {
        let b = self.handle;
        let n = self.images@.len() as int;
        &&& forall|i: int| 0 <= i < n ==> self.images@[i] == b + 1 + i
        &&& forall|i: int| 0 <= i < n ==> self.image_views@[i] == b + 1 + n + i
        &&& self.render_pass == b + 1 + 2 * n
        &&& self.pipeline_layout == b + 2 + 2 * n
        &&& self.pipeline == b + 3 + 2 * n
        &&& forall|i: int| 0 <= i < n ==> self.framebuffers@[i] == b + 4 + 2 * n + i
    }

    /// Well-formedness against a driver state: one view and one framebuffer
    /// per image, at least one image, and every component handle live with
    /// the right kind, the images owned by the chain.
    pub open spec fn wf(self, d: Driver) -> bool {
        let n = self.images@.len();
        &&& n >= 1
        &&& self.image_views@.len() == n
        &&& self.framebuffers@.len() == n
        &&& 1 <= self.handle
        &&& self.handle_layout()
        &&& d.has_entry(LiveEntry { handle: self.handle, kind: HandleKind::Swapchain, parent: 0 })
        &&& forall|i: int|
            0 <= i < n ==> d.has_entry(
                LiveEntry {
                    handle: (#[trigger] self.images@[i]),
                    kind: HandleKind::Image,
                    parent: self.handle,
                },
            )
        &&& forall|i: int|
            0 <= i < n ==> d.has_entry(
                LiveEntry {
                    handle: (#[trigger] self.image_views@[i]),
                    kind: HandleKind::ImageView,
                    parent: 0,
                },
            )
        &&& d.has_entry(
            LiveEntry { handle: self.render_pass, kind: HandleKind::RenderPass, parent: 0 },
        )
        &&& d.has_entry(
            LiveEntry {
                handle: self.pipeline_layout,
                kind: HandleKind::PipelineLayout,
                parent: 0,
            },
        )
        &&& d.has_entry(LiveEntry { handle: self.pipeline, kind: HandleKind::Pipeline, parent: 0 })
        &&& forall|i: int|
            0 <= i < n ==> d.has_entry(
                LiveEntry {
                    handle: (#[trigger] self.framebuffers@[i]),
                    kind: HandleKind::Framebuffer,
                    parent: 0,
                },
            )
    }

    /// The number of driver creations a build from this snapshot makes: the
    /// chain, the render pass, the pipeline layout, the pipeline, and one
    /// image, one view and one framebuffer per image.
    pub open spec fn build_cost(capabilities: Capabilities) -> nat {
        4 + 3 * capabilities.image_count()
    }

    /// The ledger entries a build adds, in creation order.
    pub open spec fn build_entries(self) -> Seq<LiveEntry> {
        seq![LiveEntry { handle: self.handle, kind: HandleKind::Swapchain, parent: 0 }]
            + entries_of(HandleKind::Image, self.handle, self.images@)
            + entries_of(HandleKind::ImageView, 0, self.image_views@)
            + seq![
            LiveEntry { handle: self.render_pass, kind: HandleKind::RenderPass, parent: 0 },
            LiveEntry { handle: self.pipeline_layout, kind: HandleKind::PipelineLayout, parent: 0 },
            LiveEntry { handle: self.pipeline, kind: HandleKind::Pipeline, parent: 0 },
        ] + entries_of(HandleKind::Framebuffer, 0, self.framebuffers@)
    }

    /// The create calls a build makes, in order.
    pub open spec fn build_ops(self) -> Seq<DriverOp> {
        seq![DriverOp::Create(HandleKind::Swapchain, self.handle)]
            + create_ops(HandleKind::Image, self.images@)
            + create_ops(HandleKind::ImageView, self.image_views@)
            + seq![
            DriverOp::Create(HandleKind::RenderPass, self.render_pass),
            DriverOp::Create(HandleKind::PipelineLayout, self.pipeline_layout),
            DriverOp::Create(HandleKind::Pipeline, self.pipeline),
        ] + create_ops(HandleKind::Framebuffer, self.framebuffers@)
    }

    /// The destroy calls a teardown makes, in the documented dependency
    /// order: framebuffers, pipeline, pipeline layout, render pass, image
    /// views, chain handle.
    pub open spec fn teardown_ops(self) -> Seq<DriverOp> {
        destroy_ops(HandleKind::Framebuffer, self.framebuffers@) + seq![
            DriverOp::Destroy(HandleKind::Pipeline, self.pipeline),
            DriverOp::Destroy(HandleKind::PipelineLayout, self.pipeline_layout),
            DriverOp::Destroy(HandleKind::RenderPass, self.render_pass),
        ] + destroy_ops(HandleKind::ImageView, self.image_views@) + seq![
            DriverOp::Destroy(HandleKind::Swapchain, self.handle),
        ]
    }

    /// Whether a ledger entry is untouched by a teardown of this swapchain:
    /// it is neither a component of the chain nor owned by one.
    pub open spec fn survives_teardown(self, e: LiveEntry) -> bool {
        &&& !self.framebuffers@.contains(e.handle)
        &&& !self.framebuffers@.contains(e.parent)
        &&& e.handle != self.pipeline && e.parent != self.pipeline
        &&& e.handle != self.pipeline_layout && e.parent != self.pipeline_layout
        &&& e.handle != self.render_pass && e.parent != self.render_pass
        &&& !self.image_views@.contains(e.handle)
        &&& !self.image_views@.contains(e.parent)
        &&& e.handle != self.handle && e.parent != self.handle
    }

    /// Build a swapchain against a surface capability snapshot: create the
    /// presentation chain sized to the snapshot's extent, retrieve its
    /// images, create one view per image, a render pass matching `format`, a
    /// pipeline layout and graphics pipeline, and one framebuffer per view.
    ///
    /// Fails exactly when the driver cannot complete the build's creations,
    /// in which case nothing is created.
    #[verifier::rlimit(100)]
    pub fn new(
        driver: &mut Driver,
        device: Handle,
        surface: Handle,
        capabilities: Capabilities,
        format: SurfaceFormat,
        present_mode: PresentMode,
    ) -> (r: Result<SwapChain, RenderError>)
        requires
            old(driver).inv(),
            old(driver).is_live(device),
            old(driver).is_live(surface),
            capabilities.wf(),
        ensures
            final(driver).inv(),
            r matches Ok(sc) <==> old(driver).can_create(Self::build_cost(capabilities)),
            (r matches Err(e) ==> e == RenderError::Driver(DriverError::OutOfMemory)
                && *final(driver) == *old(driver)),
            (r matches Ok(sc) ==> {
                &&& sc.wf(*final(driver))
                &&& sc.device == device
                &&& sc.format == format
                &&& sc.extent_width == capabilities.width
                &&& sc.extent_height == capabilities.height
                &&& sc.image_count() == capabilities.image_count()
                &&& sc.handle == old(driver).next
                &&& final(driver).live@ == old(driver).live@ + sc.build_entries()
                &&& final(driver).trace@ == old(driver).trace@ + sc.build_ops()
                &&& final(driver).next == old(driver).next + Self::build_cost(capabilities)
                &&& final(driver).budget == budget_minus(
                    old(driver).budget,
                    Self::build_cost(capabilities),
                )
                &&& final(driver).same_platform(*old(driver))
                &&& forall|x: Handle|
                    final(driver).is_live(x) <==> (old(driver).is_live(x) || (old(driver).next <= x
                        < final(driver).next))
            }),
    {
        let n = capabilities.image_count_exec();
        let total: u64 = 4 + 3 * n;
        if !driver.can_alloc(total) {
            return Err(RenderError::Driver(DriverError::OutOfMemory));
        }
        let ghost d0 = *driver;
        let handle = driver.allocate(HandleKind::Swapchain, 0);
        let ghost d1 = *driver;
        let images = driver.allocate_run(HandleKind::Image, handle, n);
        let ghost d2 = *driver;
        let image_views = driver.allocate_run(HandleKind::ImageView, 0, n);
        let ghost d3 = *driver;
        let render_pass = driver.allocate(HandleKind::RenderPass, 0);
        let ghost d4 = *driver;
        let pipeline_layout = driver.allocate(HandleKind::PipelineLayout, 0);
        let ghost d5 = *driver;
        let pipeline = driver.allocate(HandleKind::Pipeline, 0);
        let ghost d6 = *driver;
        let framebuffers = driver.allocate_run(HandleKind::Framebuffer, 0, n);
        let sc = SwapChain {
            device,
            handle,
            images,
            image_views,
            render_pass,
            pipeline_layout,
            pipeline,
            framebuffers,
            format,
            extent_width: capabilities.width,
            extent_height: capabilities.height,
        };
        proof {
            let nn = n as nat;
            assert(run_entries(HandleKind::Image, handle, d1.next, nn) =~= entries_of(
                HandleKind::Image,
                handle,
                sc.images@,
            ));
            assert(run_entries(HandleKind::ImageView, 0, d2.next, nn) =~= entries_of(
                HandleKind::ImageView,
                0,
                sc.image_views@,
            ));
            assert(run_entries(HandleKind::Framebuffer, 0, d6.next, nn) =~= entries_of(
                HandleKind::Framebuffer,
                0,
                sc.framebuffers@,
            ));
            assert(driver.live@ =~= d0.live@ + sc.build_entries());
            assert(driver.trace@ =~= d0.trace@ + sc.build_ops());
            assert(sc.build_entries()[0] == LiveEntry {
                handle: sc.handle,
                kind: HandleKind::Swapchain,
                parent: 0,
            });
            assert forall|i: int| 0 <= i < nn implies driver.has_entry(
                LiveEntry {
                    handle: (#[trigger] sc.images@[i]),
                    kind: HandleKind::Image,
                    parent: sc.handle,
                },
            ) by {
                assert(driver.live@[d0.live@.len() + 1 + i] == LiveEntry {
                    handle: sc.images@[i],
                    kind: HandleKind::Image,
                    parent: sc.handle,
                });
            }
            assert forall|i: int| 0 <= i < nn implies driver.has_entry(
                LiveEntry {
                    handle: (#[trigger] sc.image_views@[i]),
                    kind: HandleKind::ImageView,
                    parent: 0,
                },
            ) by {
                assert(driver.live@[d0.live@.len() + 1 + (nn as int) + i] == LiveEntry {
                    handle: sc.image_views@[i],
                    kind: HandleKind::ImageView,
                    parent: 0,
                });
            }
            assert forall|i: int| 0 <= i < nn implies driver.has_entry(
                LiveEntry {
                    handle: (#[trigger] sc.framebuffers@[i]),
                    kind: HandleKind::Framebuffer,
                    parent: 0,
                },
            ) by {
                assert(driver.live@[d0.live@.len() + 4 + 2 * (nn as int) + i] == LiveEntry {
                    handle: sc.framebuffers@[i],
                    kind: HandleKind::Framebuffer,
                    parent: 0,
                });
            }
            assert(driver.live@[d0.live@.len() as int] == LiveEntry {
                handle: sc.handle,
                kind: HandleKind::Swapchain,
                parent: 0,
            });
            assert(driver.live@[d0.live@.len() + 1 + 2 * (nn as int)] == LiveEntry {
                handle: sc.render_pass,
                kind: HandleKind::RenderPass,
                parent: 0,
            });
            assert(driver.live@[d0.live@.len() + 2 + 2 * (nn as int)] == LiveEntry {
                handle: sc.pipeline_layout,
                kind: HandleKind::PipelineLayout,
                parent: 0,
            });
            assert(driver.live@[d0.live@.len() + 3 + 2 * (nn as int)] == LiveEntry {
                handle: sc.pipeline,
                kind: HandleKind::Pipeline,
                parent: 0,
            });
        }
        Ok(sc)
    }

    /// Tear the swapchain down in the documented dependency order:
    /// framebuffers, pipeline, pipeline layout, render pass, image views,
    /// chain handle (the chain's images are released with the chain).
    ///
    /// The swapchain holds only a non-owning device reference: if the device
    /// is already gone this is a destroy-order violation, reported as
    /// [`RenderError::DeviceGone`] with nothing destroyed.
    pub fn teardown(&self, driver: &mut Driver) -> (r: Result<(), RenderError>)
        requires
            old(driver).inv(),
            self.wf(*old(driver)),
        ensures
            final(driver).inv(),
            r matches Ok(u) <==> old(driver).is_live(self.device),
            (r matches Err(e) ==> e == RenderError::DeviceGone && *final(driver) == *old(driver)),
            (r matches Ok(u) ==> {
                &&& final(driver).trace@ == old(driver).trace@ + self.teardown_ops()
                &&& final(driver).next == old(driver).next
                &&& final(driver).budget == old(driver).budget
                &&& final(driver).same_platform(*old(driver))
                &&& forall|e: LiveEntry|
                    #[trigger] final(driver).has_entry(e) <==> (old(driver).has_entry(e)
                        && self.survives_teardown(e))
            }),
    {
        if !driver.is_live_exec(self.device) {
            return Err(RenderError::DeviceGone);
        }
        let ghost d0 = *driver;
        proof {
            let n = self.images@.len() as int;
            assert forall|j: int| 0 <= j < self.framebuffers@.len() implies !(
            #[trigger] self.framebuffers@[j] == 0) by {}
            assert(!self.framebuffers@.contains(0)) by {
                if self.framebuffers@.contains(0) {
                    let j = choose|j: int|
                        0 <= j < self.framebuffers@.len() && self.framebuffers@[j] == 0;
                }
            }
        }
        driver.destroy_run(HandleKind::Framebuffer, 0, &self.framebuffers);
        let ghost d1 = *driver;
        proof {
            let e = LiveEntry { handle: self.pipeline, kind: HandleKind::Pipeline, parent: 0 };
            assert(!self.framebuffers@.contains(self.pipeline)) by {
                if self.framebuffers@.contains(self.pipeline) {
                    let j = choose|j: int|
                        0 <= j < self.framebuffers@.len() && self.framebuffers@[j]
                            == self.pipeline;
                }
            }
            assert(driver.has_entry(e));
            driver.lemma_has_entry_is_live(e);
        }
        driver.destroy(HandleKind::Pipeline, self.pipeline);
        let ghost d2 = *driver;
        proof {
            let e = LiveEntry {
                handle: self.pipeline_layout,
                kind: HandleKind::PipelineLayout,
                parent: 0,
            };
            assert(!self.framebuffers@.contains(self.pipeline_layout)) by {
                if self.framebuffers@.contains(self.pipeline_layout) {
                    let j = choose|j: int|
                        0 <= j < self.framebuffers@.len() && self.framebuffers@[j]
                            == self.pipeline_layout;
                }
            }
            assert(driver.has_entry(e));
            driver.lemma_has_entry_is_live(e);
        }
        driver.destroy(HandleKind::PipelineLayout, self.pipeline_layout);
        let ghost d3 = *driver;
        proof {
            let e = LiveEntry { handle: self.render_pass, kind: HandleKind::RenderPass, parent: 0 };
            assert(!self.framebuffers@.contains(self.render_pass)) by {
                if self.framebuffers@.contains(self.render_pass) {
                    let j = choose|j: int|
                        0 <= j < self.framebuffers@.len() && self.framebuffers@[j]
                            == self.render_pass;
                }
            }
            assert(driver.has_entry(e));
            driver.lemma_has_entry_is_live(e);
        }
        driver.destroy(HandleKind::RenderPass, self.render_pass);
        let ghost d4 = *driver;
        proof {
            let n = self.images@.len() as int;
            assert(!self.image_views@.contains(0)) by {
                if self.image_views@.contains(0) {
                    let j = choose|j: int|
                        0 <= j < self.image_views@.len() && self.image_views@[j] == 0;
                }
            }
            assert forall|j: int| 0 <= j < self.image_views@.len() implies d4.has_entry(
                LiveEntry {
                    handle: (#[trigger] self.image_views@[j]),
                    kind: HandleKind::ImageView,
                    parent: 0,
                },
            ) by {
                assert(!self.framebuffers@.contains(self.image_views@[j])) by {
                    if self.framebuffers@.contains(self.image_views@[j]) {
                        let k = choose|k: int|
                            0 <= k < self.framebuffers@.len() && self.framebuffers@[k]
                                == self.image_views@[j];
                    }
                }
            }
        }
        driver.destroy_run(HandleKind::ImageView, 0, &self.image_views);
        let ghost d5 = *driver;
        proof {
            let e = LiveEntry { handle: self.handle, kind: HandleKind::Swapchain, parent: 0 };
            assert(!self.framebuffers@.contains(self.handle)) by {
                if self.framebuffers@.contains(self.handle) {
                    let j = choose|j: int|
                        0 <= j < self.framebuffers@.len() && self.framebuffers@[j] == self.handle;
                }
            }
            assert(!self.image_views@.contains(self.handle)) by {
                if self.image_views@.contains(self.handle) {
                    let j = choose|j: int|
                        0 <= j < self.image_views@.len() && self.image_views@[j] == self.handle;
                }
            }
            assert(driver.has_entry(e));
            driver.lemma_has_entry_is_live(e);
        }
        driver.destroy(HandleKind::Swapchain, self.handle);
        proof {
            assert(driver.trace@ =~= d0.trace@ + self.teardown_ops());
        }
        Ok(())
    }
}


/// Every handle issued before the chain survives its teardown: the chain's
/// components were all issued at or after the chain handle itself.
pub proof fn lemma_older_survives_teardown(sc: SwapChain, e: LiveEntry)
    requires
        sc.handle_layout(),
        sc.image_views@.len() == sc.images@.len(),
        sc.framebuffers@.len() == sc.images@.len(),
        e.handle < sc.handle,
        e.parent < sc.handle,
    ensures
        sc.survives_teardown(e),
{
    if sc.framebuffers@.contains(e.handle) {
        let j = choose|j: int| 0 <= j < sc.framebuffers@.len() && sc.framebuffers@[j] == e.handle;
    }
    if sc.framebuffers@.contains(e.parent) {
        let j = choose|j: int| 0 <= j < sc.framebuffers@.len() && sc.framebuffers@[j] == e.parent;
    }
    if sc.image_views@.contains(e.handle) {
        let j = choose|j: int| 0 <= j < sc.image_views@.len() && sc.image_views@[j] == e.handle;
    }
    if sc.image_views@.contains(e.parent) {
        let j = choose|j: int| 0 <= j < sc.image_views@.len() && sc.image_views@[j] == e.parent;
    }
}

} // verus!
