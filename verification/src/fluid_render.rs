//! Fluid visualization settings.

use vstd::prelude::*;

verus! {

/// Color mapping mode for fluid particles.
#[derive(Debug, Clone, Copy, PartialEq, Eq, Structural)]
pub enum FluidColorMode {
    /// Uniform color for all particles.
    Solid,
    /// Color based on velocity magnitude (blue=slow → red=fast).
    Velocity,
    /// Color based on density (dark=low → bright=high).
    Density,
    /// Color based on pressure (cool=low → hot=high).
    Pressure,
}

} // verus!
