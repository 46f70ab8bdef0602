use soorat::error::RenderError;
use soorat::lod::check_terrain_lod_levels;

#[test]
fn lod_levels_of_equal_length_are_accepted() {
    assert!(check_terrain_lod_levels(3, 3).is_ok());
    assert!(check_terrain_lod_levels(0, 0).is_ok());
}

#[test]
fn lod_levels_of_unequal_length_are_a_pipeline_error() {
    match check_terrain_lod_levels(3, 2) {
        Err(RenderError::Pipeline(m)) => {
            assert_eq!(m, "TerrainLod: resolutions length (3) != distances length (2)")
        }
        other => panic!("unexpected {other:?}"),
    }
}
