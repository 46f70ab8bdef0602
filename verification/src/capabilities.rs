//! GPU capability checks against soorat's minimum requirements.

use vstd::prelude::*;

verus! {

/// The device limits that soorat's requirements are checked against
/// (as reported for an adapter: maximum 2D texture edge, uniform buffer
/// binding size, and bind group count).
#[derive(Debug, Clone, Copy)]
pub struct DeviceLimits {
    pub max_texture_dimension_2d: u32,
    pub max_uniform_buffer_size: u32,
    pub max_bind_groups: u32,
}

/// Soorat-specific capability extensions.
pub trait SooratCapabilities {
    /// Check if the device meets minimum requirements for soorat rendering.
    fn meets_soorat_requirements(&self) -> bool;
}

/// Soorat needs 2048-texel textures, 16 KiB uniform buffers and 4 bind groups.
pub open spec fn meets_requirements(limits: DeviceLimits) -> bool {
    limits.max_texture_dimension_2d >= 2048 && limits.max_uniform_buffer_size >= 16384
        && limits.max_bind_groups >= 4
}

impl SooratCapabilities for DeviceLimits {
    fn meets_soorat_requirements(&self) -> (r: bool)
        ensures
            r == meets_requirements(*self),
            r <==> (self.max_texture_dimension_2d as int >= 2048 && self.max_uniform_buffer_size as int
                >= 16384 && self.max_bind_groups as int >= 4),
    {
        self.max_texture_dimension_2d >= 2048 && self.max_uniform_buffer_size >= 16384
            && self.max_bind_groups >= 4
    }
}

/// Law: soorat's requirements hold exactly when the device offers at least
/// 2048-texel 2D textures, 16384-byte uniform buffers and 4 bind groups.
pub proof fn law_requirements_thresholds(limits: DeviceLimits)
    ensures
        meets_requirements(limits) <==> (limits.max_texture_dimension_2d as int >= 2048
            && limits.max_uniform_buffer_size as int >= 16384 && limits.max_bind_groups as int
            >= 4),
{
}

/// Law: the requirement check is monotone in every limit: a device whose
/// limits are each at least those of a device that meets the requirements
/// meets them too.
pub proof fn law_requirements_monotone(smaller: DeviceLimits, larger: DeviceLimits)
    requires
        meets_requirements(smaller),
        smaller.max_texture_dimension_2d <= larger.max_texture_dimension_2d,
        smaller.max_uniform_buffer_size <= larger.max_uniform_buffer_size,
        smaller.max_bind_groups <= larger.max_bind_groups,
    ensures
        meets_requirements(larger),
{
    law_requirements_thresholds(smaller);
    law_requirements_thresholds(larger);
}

} // verus!
