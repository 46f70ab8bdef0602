//! Shadow mapping settings.

use vstd::prelude::*;

verus! {

/// Default edge length of a shadow map, in texels.
pub const DEFAULT_SHADOW_MAP_SIZE: u32 = 2048;

} // verus!
