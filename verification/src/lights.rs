//! Multi-light system — light kinds and the per-draw light limit.

use vstd::prelude::*;

verus! {

/// Maximum number of lights supported in a single draw call.
pub const MAX_LIGHTS: usize = 8;

/// Light type discriminator (0, 1, 2 in the shader).
#[derive(Debug, Clone, Copy, PartialEq, Eq, Structural)]
pub enum LightType {
    Directional,
    Point,
    Spot,
}

} // verus!
