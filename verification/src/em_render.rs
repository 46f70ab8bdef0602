//! Electromagnetic field visualization settings.

use vstd::prelude::*;

verus! {

/// Color mode for electromagnetic field visualization.
#[non_exhaustive]
#[derive(Debug, Clone, Copy, PartialEq, Eq, Structural)]
pub enum EmColorMode {
    /// Blue→cyan→green→yellow→red gradient based on field magnitude.
    Magnitude,
    /// Signed coloring: blue for negative, red for positive field values.
    Signed,
}

} // verus!
