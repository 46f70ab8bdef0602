//! Thermal visualization settings.

use vstd::prelude::*;

verus! {

/// Color mode for thermal visualization.
#[non_exhaustive]
#[derive(Debug, Clone, Copy, PartialEq, Eq, Structural)]
pub enum ThermalColorMode {
    /// Blue (cold) → cyan → green → yellow → red (hot) gradient.
    Temperature,
    /// Single color with alpha mapped to temperature.
    AlphaBlend,
}

} // verus!
