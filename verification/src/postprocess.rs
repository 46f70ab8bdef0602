//! Post-processing settings — tone mapping.

use vstd::prelude::*;

verus! {

/// Tone mapping mode (0 = Reinhard, 1 = ACES filmic in the shader).
#[non_exhaustive]
#[derive(Debug, Clone, Copy, PartialEq, Eq, Structural)]
pub enum ToneMapMode {
    Reinhard,
    AcesFilmic,
}

} // verus!
