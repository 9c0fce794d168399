//! A minimal RAII wrapper owning one pipeline layout handle, created from a
//! set of descriptor set layouts and destroyed against the same device.

use vstd::prelude::*;

use crate::device::Device;
use crate::driver::{budget_minus, Driver, LiveEntry};
use crate::handles::{DriverError, DriverOp, Handle, HandleKind};

verus! {

/// Copy a vector of handles element by element.
fn copy_handles(src: &Vec<Handle>) -> (r: Vec<Handle>)
    ensures
        r@ == src@,
{
    let mut r: Vec<Handle> = Vec::new();
    let n = src.len();
    let mut i: usize = 0;
    while i < n
        invariant
            n == src@.len(),
            0 <= i <= n,
            r@ == src@.subrange(0, i as int),
        decreases n - i,
    {
        r.push(src[i]);
        proof {
            assert(r@ =~= src@.subrange(0, i + 1 as int));
        }
        i = i + 1;
    }
    proof {
        assert(src@.subrange(0, n as int) =~= src@);
    }
    r
}

/// One pipeline layout handle plus the device it was created from and the
/// descriptor set layouts its creation description named.
pub struct PipelineLayout {
    /// The device the layout borrows (shared ownership in the object graph).
    pub device: Handle,
    /// The owned pipeline layout handle.
    pub pipeline_layout: Handle,
    /// The descriptor set layouts the creation description named, in order.
    pub descriptor_set_layouts: Vec<Handle>,
}

impl PipelineLayout {
    /// Create a pipeline layout from the scene's descriptor set layouts.
    /// Creation failure is treated as fatal at this call site, so the driver
    /// is required to complete it.
    pub fn new(driver: &mut Driver, device: &Device, descriptor_set_layouts: &Vec<Handle>) -> (r:
        PipelineLayout)
        requires
            old(driver).inv(),
            old(driver).is_live(device.handle),
            old(driver).can_create(1),
            forall|j: int|
                0 <= j < descriptor_set_layouts@.len() ==> old(driver).is_live(
                    #[trigger] descriptor_set_layouts@[j],
                ),
        ensures
            final(driver).inv(),
            r.device == device.handle,
            r.descriptor_set_layouts@ == descriptor_set_layouts@,
            r.pipeline_layout == old(driver).next,
            final(driver).live@ == old(driver).live@.push(
                LiveEntry {
                    handle: r.pipeline_layout,
                    kind: HandleKind::PipelineLayout,
                    parent: 0,
                },
            ),
            final(driver).trace@ == old(driver).trace@.push(
                DriverOp::Create(HandleKind::PipelineLayout, r.pipeline_layout),
            ),
            final(driver).next == old(driver).next + 1,
            final(driver).budget == budget_minus(old(driver).budget, 1),
            final(driver).same_platform(*old(driver)),
            forall|x: Handle|
                final(driver).is_live(x) <==> (old(driver).is_live(x) || x == r.pipeline_layout),
    {
        let created = Self::create_pipeline_layout(driver, device, descriptor_set_layouts);
        let pipeline_layout = match created {
            Ok(h) => h,
            Err(_) => {
                proof {
                    assert(false);
                }
                0
            },
        };
        PipelineLayout {
            device: device.handle,
            pipeline_layout,
            descriptor_set_layouts: copy_handles(descriptor_set_layouts),
        }
    }

    /// The raw pipeline layout handle.
    pub fn vk_pipeline_layout(&self) -> (h: Handle)
        ensures
            h == self.pipeline_layout,
    {
        self.pipeline_layout
    }

    /// Create the layout handle; fails exactly when the driver cannot
    /// allocate.
    fn create_pipeline_layout(driver: &mut Driver, device: &Device,
        descriptor_set_layouts: &Vec<Handle>) -> (r: Result<Handle, DriverError>)
        requires
            old(driver).inv(),
            old(driver).is_live(device.handle),
            forall|j: int|
                0 <= j < descriptor_set_layouts@.len() ==> old(driver).is_live(
                    #[trigger] descriptor_set_layouts@[j],
                ),
        ensures
            final(driver).inv(),
            (r matches Ok(h) <==> old(driver).can_create(1)),
            (r matches Err(e) ==> e == DriverError::OutOfMemory && *final(driver) == *old(driver)),
            (r matches Ok(h) ==> {
                &&& h == old(driver).next
                &&& final(driver).live@ == old(driver).live@.push(
                    LiveEntry { handle: h, kind: HandleKind::PipelineLayout, parent: 0 },
                )
                &&& final(driver).trace@ == old(driver).trace@.push(
                    DriverOp::Create(HandleKind::PipelineLayout, h),
                )
                &&& final(driver).next == old(driver).next + 1
                &&& final(driver).budget == budget_minus(old(driver).budget, 1)
                &&& final(driver).same_platform(*old(driver))
                &&& forall|x: Handle|
                    final(driver).is_live(x) <==> (old(driver).is_live(x) || x == h)
            }),
    {
        if !driver.can_alloc(1) {
            return Err(DriverError::OutOfMemory);
        }
        Ok(driver.allocate(HandleKind::PipelineLayout, 0))
    }

    /// Destroy the owned layout handle against the device it was created
    /// from: the model of this wrapper going out of scope.
    pub fn destroy(&self, driver: &mut Driver)
        requires
            old(driver).inv(),
            old(driver).is_live(self.pipeline_layout),
        ensures
            final(driver).inv(),
            final(driver).trace@ == old(driver).trace@.push(
                DriverOp::Destroy(HandleKind::PipelineLayout, self.pipeline_layout),
            ),
            final(driver).next == old(driver).next,
            final(driver).budget == old(driver).budget,
            final(driver).same_platform(*old(driver)),
            !final(driver).is_live(self.pipeline_layout),
            forall|e: LiveEntry|
                #[trigger] final(driver).has_entry(e) <==> (old(driver).has_entry(e) && e.handle
                    != self.pipeline_layout && e.parent != self.pipeline_layout),
    {
        driver.destroy(HandleKind::PipelineLayout, self.pipeline_layout);
    }
}

} // verus!
