//! A minimal RAII wrapper owning one sampler handle, created with a fixed
//! default configuration and destroyed against the same device.

use vstd::prelude::*;

use crate::device::Device;
use crate::driver::{budget_minus, Driver, LiveEntry};
use crate::handles::{DriverError, DriverOp, Handle, HandleKind};

verus! {

/// The sampler configuration, reduced to the parameters the engine sets.
/// Level-of-detail values are in whole mip levels here.
#[derive(Clone, Copy, PartialEq, Eq, Structural, Debug)]
pub struct SamplerConfig {
    pub mag_linear: bool,
    pub min_linear: bool,
    pub address_repeat: bool,
    pub anisotropy_enable: bool,
    pub max_anisotropy: u32,
    pub unnormalized_coordinates: bool,
    pub compare_enable: bool,
    pub mipmap_linear: bool,
    pub min_lod: u32,
    pub max_lod: u32,
}

/// The fixed sampler policy: linear filtering, repeat addressing, anisotropy
/// enabled at the maximum level, no comparison. Not user-configurable.
pub open spec fn default_sampler_config() -> SamplerConfig {
    SamplerConfig {
        mag_linear: true,
        min_linear: true,
        address_repeat: true,
        anisotropy_enable: true,
        max_anisotropy: 16,
        unnormalized_coordinates: false,
        compare_enable: false,
        mipmap_linear: true,
        min_lod: 0,
        max_lod: 0,
    }
}

/// One sampler handle plus the device it was created from.
pub struct Sampler {
    /// The device the sampler borrows (shared ownership in the object graph).
    pub device: Handle,
    /// The owned sampler handle.
    pub sampler: Handle,
    /// The configuration the sampler was created with.
    pub config: SamplerConfig,
}

impl Sampler {
    /// Create a sampler with the fixed default configuration; fails exactly
    /// when the driver cannot allocate.
    pub fn new(driver: &mut Driver, device: &Device) -> (r: Result<Sampler, DriverError>)
        requires
            old(driver).inv(),
            old(driver).is_live(device.handle),
        ensures
            final(driver).inv(),
            (r matches Ok(s) <==> old(driver).can_create(1)),
            (r matches Err(e) ==> e == DriverError::OutOfMemory && *final(driver) == *old(driver)),
            (r matches Ok(s) ==> {
                &&& s.device == device.handle
                &&& s.sampler == old(driver).next
                &&& s.config == default_sampler_config()
                &&& final(driver).live@ == old(driver).live@.push(
                    LiveEntry { handle: s.sampler, kind: HandleKind::Sampler, parent: 0 },
                )
                &&& final(driver).trace@ == old(driver).trace@.push(
                    DriverOp::Create(HandleKind::Sampler, s.sampler),
                )
                &&& final(driver).next == old(driver).next + 1
                &&& final(driver).budget == budget_minus(old(driver).budget, 1)
                &&& final(driver).same_platform(*old(driver))
                &&& forall|x: Handle|
                    final(driver).is_live(x) <==> (old(driver).is_live(x) || x == s.sampler)
            }),
    {
        let config = SamplerConfig {
            mag_linear: true,
            min_linear: true,
            address_repeat: true,
            anisotropy_enable: true,
            max_anisotropy: 16,
            unnormalized_coordinates: false,
            compare_enable: false,
            mipmap_linear: true,
            min_lod: 0,
            max_lod: 0,
        };
        if !driver.can_alloc(1) {
            return Err(DriverError::OutOfMemory);
        }
        let sampler = driver.allocate(HandleKind::Sampler, 0);
        Ok(Sampler { device: device.handle, sampler, config })
    }

    /// The raw sampler handle.
    pub fn vk_sampler(&self) -> (h: Handle)
        ensures
            h == self.sampler,
    {
        self.sampler
    }

    /// Destroy the owned sampler handle against the device it was created
    /// from: the model of this wrapper going out of scope.
    pub fn destroy(&self, driver: &mut Driver)
        requires
            old(driver).inv(),
            old(driver).is_live(self.sampler),
        ensures
            final(driver).inv(),
            final(driver).trace@ == old(driver).trace@.push(
                DriverOp::Destroy(HandleKind::Sampler, self.sampler),
            ),
            final(driver).next == old(driver).next,
            final(driver).budget == old(driver).budget,
            final(driver).same_platform(*old(driver)),
            !final(driver).is_live(self.sampler),
            forall|e: LiveEntry|
                #[trigger] final(driver).has_entry(e) <==> (old(driver).has_entry(e) && e.handle
                    != self.sampler && e.parent != self.sampler),
    {
        driver.destroy(HandleKind::Sampler, self.sampler);
    }
}

} // verus!
