//! Terrain rendering — the triangle indices of a heightmap grid.

use vstd::prelude::*;
use crate::primitives::{cell_list, indices_in_bounds, is_cell_list};

verus! {

/// Generate the indices of a terrain of `width × depth` grid cells over
/// `(width + 1) × (depth + 1)` row-major vertices: two triangles per cell,
/// wound `tl, bl, tr` and `tr, bl, br`.
pub fn terrain_indices(width: u32, depth: u32) -> (indices: Vec<u32>)
    requires
        (width + 1) * (depth + 1) <= u32::MAX,
        width * depth <= u32::MAX,
        width * depth * 6 <= usize::MAX,
    ensures
        is_cell_list(indices@, false, width as int, depth as int),
        indices_in_bounds(indices@, (width + 1) * (depth + 1)),
{
    cell_list(width, depth, false)
}

} // verus!
