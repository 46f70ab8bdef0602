use soorat::batch::{batch_indices_u16, batch_indices_u32, emit_quad_u16, emit_quad_u32};
use soorat::primitives::{
    cube_indices, cylinder_indices, cylinder_resolution, plane_indices, plane_resolution,
    sphere_indices, sphere_resolution,
};
use soorat::terrain::terrain_indices;
use soorat::text::BitmapFont;

#[test]
fn cube_index_pattern() {
    let i = cube_indices();
    assert_eq!(i.len(), 36);
    assert_eq!(&i[0..6], &[0, 1, 2, 2, 3, 0]);
    assert_eq!(&i[30..36], &[20, 21, 22, 22, 23, 20]);
    assert!(i.iter().all(|&idx| idx < 24));
}

#[test]
fn sphere_index_counts_and_bounds() {
    let (segments, rings) = sphere_resolution(16, 8);
    assert_eq!((segments, rings), (16, 8));
    let i = sphere_indices(16, 8);
    assert_eq!(i.len(), 16 * 8 * 6);
    let vertices = (16 + 1) * (8 + 1);
    assert!(i.iter().all(|&idx| idx < vertices));
    // first cell: a = 0, b = segments + 1
    assert_eq!(&i[0..6], &[0, 17, 1, 17, 18, 1]);
}

#[test]
fn sphere_minimum_resolution() {
    assert_eq!(sphere_resolution(1, 1), (3, 2));
    assert_eq!(sphere_resolution(0, 0), (3, 2));
    let i = sphere_indices(0, 0);
    assert_eq!(i.len(), 3 * 2 * 6);
    assert!(i.iter().all(|&idx| idx < 4 * 3));
}

#[test]
fn plane_index_counts() {
    let i = plane_indices(4);
    assert_eq!(i.len(), 96);
    assert!(i.iter().all(|&idx| idx < 25));
    assert_eq!(&i[0..6], &[0, 5, 1, 1, 5, 6]);
    assert_eq!(plane_resolution(0), 1);
    let j = plane_indices(0);
    assert_eq!(j, vec![0, 2, 1, 1, 2, 3]);
}

#[test]
fn cylinder_index_layout() {
    assert_eq!(cylinder_resolution(0), 3);
    let i = cylinder_indices(16);
    assert_eq!(i.len(), 16 * 12);
    assert!(i.iter().all(|&idx| idx < 4 * 17));
    // side band
    assert_eq!(&i[0..6], &[0, 17, 1, 17, 18, 1]);
    // top cap: center 34, first triangle (34, 35, 36), last wraps to 35
    assert_eq!(&i[96..99], &[34, 35, 36]);
    assert_eq!(&i[141..144], &[34, 50, 35]);
    // bottom cap: center 51, wound the other way
    assert_eq!(&i[144..147], &[51, 53, 52]);
}

#[test]
fn terrain_index_pattern() {
    let i = terrain_indices(4, 4);
    assert_eq!(i.len(), 4 * 4 * 6);
    assert!(i.iter().all(|&idx| idx < 25));
    let j = terrain_indices(3, 1);
    assert_eq!(&j[6..12], &[1, 5, 2, 2, 5, 6]);
    assert!(terrain_indices(0, 5).is_empty());
}

#[test]
fn pipeline_index_pattern_u16() {
    let indices = batch_indices_u16(3);
    assert_eq!(&indices[0..6], &[0, 1, 2, 2, 3, 0]);
    assert_eq!(&indices[6..12], &[4, 5, 6, 6, 7, 4]);
    assert_eq!(&indices[12..18], &[8, 9, 10, 10, 11, 8]);
}

#[test]
fn u16_batch_truncated_at_limit() {
    let indices = batch_indices_u16(16400);
    assert_eq!(indices.len(), 16383 * 6);
    assert!(indices.iter().all(|&idx| idx < u16::MAX));
    assert_eq!(*indices.last().unwrap(), 4 * 16382);
    assert!(batch_indices_u16(usize::MAX).is_empty());
}

#[test]
fn u32_batch_not_truncated() {
    let indices = batch_indices_u32(20000);
    assert_eq!(indices.len(), 20000 * 6);
    let small = batch_indices_u16(10);
    let wide = batch_indices_u32(10);
    for (a, b) in small.iter().zip(wide.iter()) {
        assert_eq!(*a as u32, *b);
    }
}

#[test]
fn emit_quads() {
    let mut v16 = vec![7u16];
    emit_quad_u16(2, &mut v16);
    assert_eq!(v16, vec![7, 8, 9, 10, 10, 11, 8]);
    let mut v32 = Vec::new();
    assert!(emit_quad_u32(1, &mut v32));
    assert_eq!(v32, vec![4, 5, 6, 6, 7, 4]);
    assert!(!emit_quad_u32(1 << 30, &mut v32));
    assert_eq!(v32.len(), 6);
}

fn test_font() -> BitmapFont {
    BitmapFont {
        texture_id: 1,
        glyph_width: 8,
        glyph_height: 16,
        columns: 16,
        atlas_width: 128,
        atlas_height: 128,
        first_char: 32,
        glyph_count: 96,
    }
}

#[test]
fn glyph_cells() {
    let font = test_font();
    assert_eq!(font.glyph_cell(' '), (0, 0));
    // 'A' = 65, index 33: column 1, row 2
    assert_eq!(font.glyph_cell('A'), (8, 32));
    // '~' = 126, index 94: column 14, row 5
    assert_eq!(font.glyph_cell('~'), (112, 80));
    // outside the atlas falls back to the first glyph
    assert_eq!(font.glyph_cell('\u{200}'), (0, 0));
    // DEL = 127, index 95: the last glyph
    assert_eq!(font.glyph_cell('\u{7f}'), (120, 80));
    assert_eq!(font.glyph_cell('\n'), (0, 0));
}

#[test]
fn small_resolutions_give_the_minimum_meshes() {
    assert_eq!(sphere_indices(0, 0), sphere_indices(3, 2));
    assert_eq!(sphere_indices(1, 1), sphere_indices(3, 2));
    assert_eq!(sphere_indices(0, 5), sphere_indices(3, 5));
    assert!(!sphere_indices(0, 0).is_empty());
    assert!(sphere_indices(0, 0).iter().all(|&i| i < 4 * 3));
    assert_eq!(plane_indices(0), plane_indices(1));
    assert_eq!(cylinder_indices(0), cylinder_indices(3));
    assert_eq!(cylinder_indices(1).len(), 36);
}

#[test]
fn u32_batch_matches_u16_below_the_limit() {
    for n in [0usize, 1, 7, 16383] {
        let small: Vec<u32> = batch_indices_u16(n).iter().map(|&i| i as u32).collect();
        assert_eq!(small, batch_indices_u32(n));
    }
    assert_eq!(batch_indices_u32(16384).len(), 16384 * 6);
}

#[test]
fn glyph_cell_without_columns_is_the_origin() {
    let mut font = test_font();
    font.columns = 0;
    assert_eq!(font.glyph_cell('A'), (0, 0));
    assert_eq!(font.glyph_cell(' '), (0, 0));
}
