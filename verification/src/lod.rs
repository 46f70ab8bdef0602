//! Level of detail — the consistency check of a terrain LOD table.

use vstd::prelude::*;
use crate::error::{decimal, decimal_string, RenderError, Result};

verus! {

/// The message of a terrain LOD table whose resolution and distance lists
/// differ in length.
pub open spec fn lod_mismatch_text(resolutions: nat, distances: nat) -> Seq<char> {
    "TerrainLod: resolutions length ("@ + decimal(resolutions) + ") != distances length ("@
        + decimal(distances) + ")"@
}

/// Check a terrain LOD table with `resolutions` resolutions and `distances`
/// distance thresholds: one threshold per resolution, or a pipeline error.
pub fn check_terrain_lod_levels(resolutions: usize, distances: usize) -> (r: Result<()>)
    ensures
        resolutions == distances <==> r is Ok,
        resolutions != distances ==> (r matches Err(RenderError::Pipeline(m)) && m@
            == lod_mismatch_text(resolutions as nat, distances as nat)),
{
    if resolutions != distances {
        let m = String::from_str("TerrainLod: resolutions length (").concat(
            decimal_string(resolutions as u64).as_str(),
        ).concat(") != distances length (").concat(decimal_string(distances as u64).as_str()).concat(
            ")",
        );
        assert(m@ =~= lod_mismatch_text(resolutions as nat, distances as nat));
        return Err(RenderError::Pipeline(m));
    }
    Ok(())
}

} // verus!
