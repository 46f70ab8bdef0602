//! Acoustic visualization settings.

use vstd::prelude::*;

verus! {

/// Color mode for acoustic pressure visualization.
#[non_exhaustive]
#[derive(Debug, Clone, Copy, PartialEq, Eq, Structural)]
pub enum AcousticColorMode {
    /// Blue→cyan→green→yellow→red gradient based on pressure magnitude.
    Pressure,
    /// Signed coloring: blue for negative pressure, red for positive.
    SignedPressure,
    /// Per-band energy coloring (averaged across octave bands).
    Energy,
}

} // verus!
