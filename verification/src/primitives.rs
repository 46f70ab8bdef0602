//! Built-in mesh primitives — cube, sphere, plane, cylinder — and the
//! heightmap terrain grid: the triangle index lists that connect their
//! vertices.
//!
//! Vertices are laid out row by row, `cols` vertices per row; the cell at row
//! `z`, column `x` is a quad of two triangles over the corners
//! `tl = z * cols + x`, `tr = tl + 1`, `bl = tl + cols`, `br = bl + 1`.

use vstd::prelude::*;

verus! {

/// Corner `t` (0..6) of a grid cell, wound `tl, bl, tr, tr, bl, br`
/// (plane and terrain).
pub open spec fn grid_corner(cols: int, z: int, x: int, t: int) -> int {
    let tl = z * cols + x;
    let bl = tl + cols;
    if t == 0 {
        tl
    } else if t == 1 {
        bl
    } else if t == 2 || t == 3 {
        tl + 1
    } else if t == 4 {
        bl
    } else {
        bl + 1
    }
}

/// Corner `t` (0..6) of a band cell, wound `tl, bl, tr, bl, br, tr`
/// (sphere and cylinder side).
pub open spec fn band_corner(cols: int, z: int, x: int, t: int) -> int {
    let tl = z * cols + x;
    let bl = tl + cols;
    if t == 0 {
        tl
    } else if t == 1 || t == 3 {
        bl
    } else if t == 2 || t == 5 {
        tl + 1
    } else {
        bl + 1
    }
}

/// Corner `t` of cell `(z, x)` for either winding.
pub open spec fn cell_corner(band: bool, cols: int, z: int, x: int, t: int) -> int {
    if band {
        band_corner(cols, z, x, t)
    } else {
        grid_corner(cols, z, x, t)
    }
}

/// Position of corner `t` of cell `(z, x)` in a row-major cell list.
#[verifier::opaque]
pub open spec fn cell_slot(cells_x: int, z: int, x: int, t: int) -> int {
    (z * cells_x + x) * 6 + t
}

/// `indices` holds, cell by cell (row-major over `cells_x × cells_z`), the six
/// corners of each cell.
pub open spec fn is_cell_list(indices: Seq<u32>, band: bool, cells_x: int, cells_z: int) -> bool {
    &&& indices.len() == cells_x * cells_z * 6
    &&& forall|z: int, x: int, t: int|
        0 <= z < cells_z && 0 <= x < cells_x && 0 <= t < 6 ==> (#[trigger] indices[cell_slot(cells_x, z, x, t)]) as int == cell_corner(band, cells_x + 1, z, x, t)
}

/// Every index names one of the first `vertex_count` vertices.
pub open spec fn indices_in_bounds(indices: Seq<u32>, vertex_count: int) -> bool {
    forall|k: int| 0 <= k < indices.len() ==> (#[trigger] indices[k] as int) < vertex_count
}

/// The cell list over a `cells_x × cells_z` grid, written out: entry `k`
/// is corner `k % 6` of cell `k / 6`, cells numbered row by row.
pub open spec fn cell_list_seq(band: bool, cells_x: int, cells_z: int) -> Seq<int> {
    Seq::new(
        (cells_x * cells_z * 6) as nat,
        |k: int| cell_corner(band, cells_x + 1, (k / 6) / cells_x, (k / 6) % cells_x, k % 6),
    )
}

/// `is_cell_list` pins the list down: it is `cell_list_seq`.
proof fn lemma_cell_list_exact(indices: Seq<u32>, band: bool, cells_x: int, cells_z: int)
    requires
        cells_x > 0,
        cells_z >= 0,
        is_cell_list(indices, band, cells_x, cells_z),
    ensures
        indices.map_values(|v: u32| v as int) == cell_list_seq(band, cells_x, cells_z),
{
    let ints = indices.map_values(|v: u32| v as int);
    let expected = cell_list_seq(band, cells_x, cells_z);
    assert(cells_x * cells_z * 6 >= 0) by (nonlinear_arith)
        requires
            cells_x > 0,
            cells_z >= 0,
    ;
    assert forall|k: int| 0 <= k < ints.len() implies ints[k] == expected[k] by {
        let c = k / 6;
        let t = k % 6;
        let z = c / cells_x;
        let x = c % cells_x;
        assert(0 <= z < cells_z && 0 <= x < cells_x && c == z * cells_x + x) by (nonlinear_arith)
            requires
                cells_x > 0,
                0 <= k < cells_x * cells_z * 6,
                c == k / 6,
                z == c / cells_x,
                x == c % cells_x,
        ;
        assert(cell_slot(cells_x, z, x, t) == k) by {
            reveal(cell_slot);
        }
        assert(indices[cell_slot(cells_x, z, x, t)] as int == cell_corner(band, cells_x + 1, z, x, t));
    }
    assert(ints =~= expected);
}

proof fn lemma_cell_corner_bound(band: bool, cells_x: int, cells_z: int, z: int, x: int, t: int)
    requires
        0 <= z < cells_z,
        0 <= x < cells_x,
        0 <= t < 6,
    ensures
        0 <= cell_corner(band, cells_x + 1, z, x, t),
        cell_corner(band, cells_x + 1, z, x, t) < (cells_x + 1) * (cells_z + 1),
{
    let cols = cells_x + 1;
    assert(0 <= z * cols) by (nonlinear_arith)
        requires
            0 <= z,
            0 <= cols,
    ;
    assert(z * cols + x + cols + 1 < cols * (cells_z + 1)) by (nonlinear_arith)
        requires
            0 <= z < cells_z,
            0 <= x < cells_x,
            cols == cells_x + 1,
    ;
}

proof fn lemma_cell_order(w: int, z1: int, x1: int, z2: int, x2: int)
    requires
        0 <= x1 < w,
        0 <= x2 < w,
        0 <= z1,
        0 <= z2,
        z1 < z2 || (z1 == z2 && x1 < x2),
    ensures
        z1 * w + x1 < z2 * w + x2,
{
    if z1 < z2 {
        assert(z1 * w + w <= z2 * w) by (nonlinear_arith)
            requires
                z1 < z2,
                0 <= w,
        ;
    }
}

/// Quad index list over a `cells_x × cells_z` grid of cells.
pub(crate) fn cell_list(cells_x: u32, cells_z: u32, band: bool) -> (indices: Vec<u32>)
    requires
        (cells_x + 1) * (cells_z + 1) <= u32::MAX,
        cells_x * cells_z * 6 <= usize::MAX,
    ensures
        is_cell_list(indices@, band, cells_x as int, cells_z as int),
        indices_in_bounds(indices@, (cells_x + 1) * (cells_z + 1)),
{
    let ghost w = cells_x as int;
    let ghost d = cells_z as int;
    proof {
        assert(cells_x + 1 <= u32::MAX) by (nonlinear_arith)
            requires
                (cells_x + 1) * (cells_z + 1) <= u32::MAX,
        ;
    }
    let cols = cells_x + 1;
    let mut indices: Vec<u32> = Vec::new();
    let mut z: u32 = 0;
    let ghost mut q: int = 0;
    while z < cells_z
        invariant
            w == cells_x,
            d == cells_z,
            cols == cells_x + 1,
            (cells_x + 1) * (cells_z + 1) <= u32::MAX,
            z <= cells_z,
            q == z * w,
            indices@.len() == q * 6,
            forall|zz: int, xx: int, t: int|
                0 <= zz < z && 0 <= xx < w && 0 <= t < 6 ==> (#[trigger] indices@[cell_slot(w, zz, xx, t)]) as int == cell_corner(
                    band,
                    w + 1,
                    zz,
                    xx,
                    t,
                ),
            indices_in_bounds(indices@, (w + 1) * (d + 1)),
        decreases cells_z - z,
    {
        let mut x: u32 = 0;
        assert forall|zz: int, xx: int, t: int|
            0 <= zz < cells_z && 0 <= xx < w && 0 <= t < 6 && (zz < z || (zz == z && xx < x))
            implies (#[trigger] indices@[cell_slot(w, zz, xx, t)]) as int == cell_corner(band, w + 1, zz, xx, t) by {
            assert(zz < z);
        }
        while x < cells_x
            invariant
                w == cells_x,
                d == cells_z,
                cols == cells_x + 1,
                (cells_x + 1) * (cells_z + 1) <= u32::MAX,
                z < cells_z,
                x <= cells_x,
                q == z * w + x,
                indices@.len() == q * 6,
                forall|zz: int, xx: int, t: int|
                    0 <= zz < cells_z && 0 <= xx < w && 0 <= t < 6 && (zz < z || (zz == z && xx
                        < x)) ==> (#[trigger] indices@[cell_slot(w, zz, xx, t)]) as int == cell_corner(
                        band,
                        w + 1,
                        zz,
                        xx,
                        t,
                    ),
                indices_in_bounds(indices@, (w + 1) * (d + 1)),
            decreases cells_x - x,
        {
            proof {
                lemma_cell_corner_bound(band, w, d, z as int, x as int, 5);
                lemma_cell_corner_bound(band, w, d, z as int, x as int, 4);
                assert(0 <= z * cols) by (nonlinear_arith)
                    requires
                        0 <= z,
                        0 <= cols,
                ;
            }
            let tl = z * cols + x;
            let bl = tl + cols;
            let ghost before = indices@;
            if band {
                indices.push(tl);
                indices.push(bl);
                indices.push(tl + 1);
                indices.push(bl);
                indices.push(bl + 1);
                indices.push(tl + 1);
            } else {
                indices.push(tl);
                indices.push(bl);
                indices.push(tl + 1);
                indices.push(tl + 1);
                indices.push(bl);
                indices.push(bl + 1);
            }
            proof {
                let after = indices@;
                assert(after.len() == before.len() + 6);
                assert forall|t: int| 0 <= t < 6 implies after[before.len() + t] as int
                    == #[trigger] cell_corner(band, w + 1, z as int, x as int, t) by {}
                assert forall|zz: int, xx: int, t: int|
                    0 <= zz < cells_z && 0 <= xx < w && 0 <= t < 6 && (zz < z || (zz == z && xx
                        < x + 1)) implies (#[trigger] after[cell_slot(w, zz, xx, t)]) as int == cell_corner(
                    band,
                    w + 1,
                    zz,
                    xx,
                    t,
                ) by {
                    reveal(cell_slot);
                    if zz == z && xx == x {
                        assert(cell_slot(w, zz, xx, t) == before.len() + t);
                    } else {
                        lemma_cell_order(w, zz, xx, z as int, x as int);
                        assert(cell_slot(w, zz, xx, t) < before.len());
                        assert(after[cell_slot(w, zz, xx, t)] == before[cell_slot(w, zz, xx, t)]);
                    }
                }
                assert forall|k: int| 0 <= k < after.len() implies (#[trigger] after[k] as int)
                    < (w + 1) * (d + 1) by {
                    if k < before.len() {
                        assert(after[k] == before[k]);
                    } else {
                        lemma_cell_corner_bound(band, w, d, z as int, x as int, k - before.len());
                        assert(after[k] as int == cell_corner(band, w + 1, z as int, x as int, k
                            - before.len()));
                    }
                }
                q = q + 1;
            }
            x = x + 1;
        }
        proof {
            assert(q == (z + 1) * w) by (nonlinear_arith)
                requires
                    q == z * w + w,
            ;
            assert forall|zz: int, xx: int, t: int|
                0 <= zz < z + 1 && 0 <= xx < w && 0 <= t < 6 implies (#[trigger] indices@[cell_slot(w, zz, xx, t)]) as int
                == cell_corner(band, w + 1, zz, xx, t) by {
                assert(zz < z || (zz == z && xx < x));
            }
        }
        z = z + 1;
    }
    proof {
        assert(q * 6 == w * d * 6) by (nonlinear_arith)
            requires
                q == d * w,
        ;
    }
    indices
}

/// Offset of corner `t` (0..6) of a quad whose four vertices are numbered
/// 0..4 around it: triangles `0, 1, 2` and `2, 3, 0`.
pub open spec fn quad_offset(t: int) -> int {
    if t == 0 || t == 5 {
        0
    } else if t == 1 {
        1
    } else if t == 2 || t == 3 {
        2
    } else {
        3
    }
}

/// The larger of two counts.
pub open spec fn at_least(n: u32, min: u32) -> u32 {
    if n < min {
        min
    } else {
        n
    }
}

/// Generate the 36 indices of a unit cube: six faces of four vertices each,
/// face `f` using vertices `4f .. 4f + 4`.
pub fn cube_indices() -> (indices: Vec<u32>)
    ensures
        indices@.len() == 36,
        forall|f: int, t: int|
            0 <= f < 6 && 0 <= t < 6 ==> (#[trigger] indices@[6 * f + t]) as int == 4 * f
                + quad_offset(t),
        indices_in_bounds(indices@, 24),
{
    let mut indices: Vec<u32> = Vec::with_capacity(36);
    let mut f: u32 = 0;
    while f < 6
        invariant
            f <= 6,
            indices@.len() == 6 * f,
            forall|ff: int, t: int|
                0 <= ff < f && 0 <= t < 6 ==> (#[trigger] indices@[6 * ff + t]) as int == 4 * ff
                    + quad_offset(t),
            indices_in_bounds(indices@, 24),
        decreases 6 - f,
    {
        let base = f * 4;
        let ghost before = indices@;
        indices.push(base);
        indices.push(base + 1);
        indices.push(base + 2);
        indices.push(base + 2);
        indices.push(base + 3);
        indices.push(base);
        proof {
            let after = indices@;
            assert forall|ff: int, t: int| 0 <= ff < f + 1 && 0 <= t < 6 implies (
            #[trigger] after[6 * ff + t]) as int == 4 * ff + quad_offset(t) by {
                if ff < f {
                    assert(after[6 * ff + t] == before[6 * ff + t]);
                }
            }
        }
        f = f + 1;
    }
    indices
}

/// The index list of a sphere with `segments` and `rings` (raised to at
/// least 3 and 2): its bands of cells, wound as bands.
pub open spec fn sphere_index_seq(segments: u32, rings: u32) -> Seq<int> {
    cell_list_seq(true, at_least(segments, 3) as int, at_least(rings, 2) as int)
}

/// The index list of a plane with `subdivisions` (raised to at least 1).
pub open spec fn plane_index_seq(subdivisions: u32) -> Seq<int> {
    cell_list_seq(false, at_least(subdivisions, 1) as int, at_least(subdivisions, 1) as int)
}

/// Law: a sphere asked for fewer than 3 segments or 2 rings is the sphere
/// with 3 segments and 2 rings (on each count separately); its index list is
/// never empty.
pub proof fn law_sphere_minimum_resolution(segments: u32, rings: u32)
    ensures
        sphere_index_seq(segments, rings) == sphere_index_seq(at_least(segments, 3), at_least(rings, 2)),
        sphere_index_seq(segments, rings).len() == 6 * at_least(segments, 3) * at_least(rings, 2),
        sphere_index_seq(segments, rings).len() >= 36,
{
    let s = at_least(segments, 3) as int;
    let r = at_least(rings, 2) as int;
    assert(s * r * 6 == 6 * s * r && 6 * s * r >= 36) by (nonlinear_arith)
        requires
            s >= 3,
            r >= 2,
    ;
}

/// Law: a plane asked for no subdivisions is the plane with one; its index
/// list is never empty.
pub proof fn law_plane_minimum_resolution(subdivisions: u32)
    ensures
        plane_index_seq(subdivisions) == plane_index_seq(at_least(subdivisions, 1)),
        plane_index_seq(subdivisions).len() >= 6,
{
    let d = at_least(subdivisions, 1) as int;
    assert(d * d * 6 >= 6) by (nonlinear_arith)
        requires
            d >= 1,
    ;
}

/// Segment and ring counts a sphere is built with: at least 3 segments and
/// 2 rings.
pub fn sphere_resolution(segments: u32, rings: u32) -> (r: (u32, u32))
    ensures
        r == (at_least(segments, 3), at_least(rings, 2)),
{
    (if segments < 3 { 3 } else { segments }, if rings < 2 { 2 } else { rings })
}

/// Generate the indices of a UV sphere: `rings` bands of `segments` cells
/// over `(rings + 1) × (segments + 1)` vertices (counts raised to at least
/// 3 segments and 2 rings).
pub fn sphere_indices(segments: u32, rings: u32) -> (indices: Vec<u32>)
    requires
        (at_least(rings, 2) + 1) * (at_least(segments, 3) + 1) <= u32::MAX,
        at_least(rings, 2) * at_least(segments, 3) * 6 <= u32::MAX,
    ensures
        indices@.map_values(|v: u32| v as int) == sphere_index_seq(segments, rings),
        is_cell_list(indices@, true, at_least(segments, 3) as int, at_least(rings, 2) as int),
        indices_in_bounds(
            indices@,
            (at_least(segments, 3) + 1) * (at_least(rings, 2) + 1),
        ),
{
    let (segs, rows) = sphere_resolution(segments, rings);
    proof {
        assert((segs + 1) * (rows + 1) == (rows + 1) * (segs + 1)) by (nonlinear_arith);
        assert(segs * rows * 6 == rows * segs * 6) by (nonlinear_arith);
    }
    let indices = cell_list(segs, rows, true);
    proof {
        lemma_cell_list_exact(indices@, true, segs as int, rows as int);
    }
    indices
}

/// Subdivision count a plane is built with: at least 1.
pub fn plane_resolution(subdivisions: u32) -> (r: u32)
    ensures
        r == at_least(subdivisions, 1),
{
    if subdivisions < 1 {
        1
    } else {
        subdivisions
    }
}

/// Generate the indices of an XZ plane: `divs × divs` cells over
/// `(divs + 1)²` vertices, where `divs` is `subdivisions` raised to at least 1.
pub fn plane_indices(subdivisions: u32) -> (indices: Vec<u32>)
    requires
        (at_least(subdivisions, 1) + 1) * (at_least(subdivisions, 1) + 1) <= u32::MAX,
        at_least(subdivisions, 1) * at_least(subdivisions, 1) * 6 <= u32::MAX,
    ensures
        indices@.map_values(|v: u32| v as int) == plane_index_seq(subdivisions),
        is_cell_list(
            indices@,
            false,
            at_least(subdivisions, 1) as int,
            at_least(subdivisions, 1) as int,
        ),
        indices_in_bounds(
            indices@,
            (at_least(subdivisions, 1) + 1) * (at_least(subdivisions, 1) + 1),
        ),
{
    let divs = plane_resolution(subdivisions);
    let indices = cell_list(divs, divs, false);
    proof {
        lemma_cell_list_exact(indices@, false, divs as int, divs as int);
    }
    indices
}

/// Segment count a cylinder is built with: at least 3.
pub fn cylinder_resolution(segments: u32) -> (r: u32)
    ensures
        r == at_least(segments, 3),
{
    if segments < 3 {
        3
    } else {
        segments
    }
}

/// The next segment around a ring of `segments`, wrapping to 0.
pub open spec fn ring_next(i: int, segments: int) -> int {
    if i + 1 < segments {
        i + 1
    } else {
        0
    }
}

/// Corner `t` (0..3) of cap triangle `i` of a cylinder with `s` segments.
/// The top cap fans from vertex `2(s+1)` over the ring that follows it, the
/// bottom cap from vertex `3(s+1)`, wound the other way.
pub open spec fn cap_corner(s: int, top: bool, i: int, t: int) -> int {
    let center = if top { 2 * (s + 1) } else { 3 * (s + 1) };
    let (second, third) = if top { (i, ring_next(i, s)) } else { (ring_next(i, s), i) };
    if t == 0 {
        center
    } else if t == 1 {
        center + 1 + second
    } else {
        center + 1 + third
    }
}

/// The index list of a cylinder with `segments` (raised to at least 3):
/// the side band, then the top cap's triangles, then the bottom cap's.
pub open spec fn cylinder_index_seq(segments: u32) -> Seq<int> {
    let s = at_least(segments, 3) as int;
    cell_list_seq(true, s, 1) + Seq::new(
        (6 * s) as nat,
        |k: int|
            if k < 3 * s {
                cap_corner(s, true, k / 3, k % 3)
            } else {
                cap_corner(s, false, (k - 3 * s) / 3, (k - 3 * s) % 3)
            },
    )
}

/// Law: a cylinder asked for fewer than 3 segments is the cylinder with 3;
/// its index list is never empty.
pub proof fn law_cylinder_minimum_resolution(segments: u32)
    ensures
        cylinder_index_seq(segments) == cylinder_index_seq(at_least(segments, 3)),
        cylinder_index_seq(segments).len() == 12 * at_least(segments, 3),
        cylinder_index_seq(segments).len() >= 36,
{
}

/// Generate the indices of a cylinder with `s` = `segments` raised to at
/// least 3: a side band of `s` cells over two rings of `s + 1` vertices,
/// then the top and bottom caps, over `4(s + 1)` vertices in all.
pub fn cylinder_indices(segments: u32) -> (indices: Vec<u32>)
    requires
        4 * (at_least(segments, 3) + 1) <= u32::MAX,
        12 * at_least(segments, 3) <= usize::MAX,
    ensures
        ({
            let s = at_least(segments, 3) as int;
            &&& indices@.len() == 12 * s
            &&& is_cell_list(indices@.take(6 * s), true, s, 1)
            &&& forall|i: int, t: int|
                0 <= i < s && 0 <= t < 3 ==> (#[trigger] indices@[6 * s + 3 * i + t]) as int
                    == cap_corner(s, true, i, t)
            &&& forall|i: int, t: int|
                0 <= i < s && 0 <= t < 3 ==> (#[trigger] indices@[9 * s + 3 * i + t]) as int
                    == cap_corner(s, false, i, t)
            &&& indices_in_bounds(indices@, 4 * (s + 1))
        }),
        indices@.map_values(|v: u32| v as int) == cylinder_index_seq(segments),
{
    let s = cylinder_resolution(segments);
    let ghost si = s as int;
    let mut indices = cell_list(s, 1, true);
    let ghost side = indices@;
    proof {
        assert(side.len() == 6 * si) by (nonlinear_arith)
            requires
                side.len() == si * 1 * 6,
        ;
    }
    let top_center = 2 * (s + 1);
    let bot_center = 3 * (s + 1);
    let mut cap: u32 = 0;
    while cap < 2
        invariant
            si == s,
            4 * (s + 1) <= u32::MAX,
            top_center == 2 * (s + 1),
            bot_center == 3 * (s + 1),
            cap <= 2,
            side.len() == 6 * si,
            indices@.len() == 6 * si + 3 * si * cap,
            indices@.take(6 * si) == side,
            forall|i: int, t: int|
                0 <= i < si && 0 <= t < 3 && cap >= 1 ==> (#[trigger] indices@[6 * si + 3 * i
                    + t]) as int == cap_corner(si, true, i, t),
            forall|i: int, t: int|
                0 <= i < si && 0 <= t < 3 && cap >= 2 ==> (#[trigger] indices@[9 * si + 3 * i
                    + t]) as int == cap_corner(si, false, i, t),
            indices_in_bounds(indices@, 4 * (si + 1)),
        decreases 2 - cap,
    {
        let center = if cap == 0 { top_center } else { bot_center };
        let ghost start = indices@.len();
        let mut i: u32 = 0;
        while i < s
            invariant
                si == s,
                4 * (s + 1) <= u32::MAX,
                top_center == 2 * (s + 1),
                bot_center == 3 * (s + 1),
                cap < 2,
                center == if cap == 0 { top_center } else { bot_center },
                i <= s,
                side.len() == 6 * si,
                start == 6 * si + 3 * si * cap,
                indices@.len() == start + 3 * i,
                indices@.take(6 * si) == side,
                forall|ii: int, t: int|
                    0 <= ii < si && 0 <= t < 3 && cap >= 1 ==> (#[trigger] indices@[6 * si + 3
                        * ii + t]) as int == cap_corner(si, true, ii, t),
                forall|ii: int, t: int|
                    0 <= ii < i && 0 <= t < 3 ==> (#[trigger] indices@[start + 3 * ii + t]) as int
                        == cap_corner(si, cap == 0, ii, t),
                indices_in_bounds(indices@, 4 * (si + 1)),
            decreases s - i,
        {
            let next = if i + 1 < s { i + 1 } else { 0 };
            let ghost before = indices@;
            indices.push(center);
            if cap == 0 {
                indices.push(center + 1 + i);
                indices.push(center + 1 + next);
            } else {
                indices.push(center + 1 + next);
                indices.push(center + 1 + i);
            }
            proof {
                let after = indices@;
                assert(after.take(6 * si) =~= before.take(6 * si));
                assert forall|ii: int, t: int|
                    0 <= ii < si && 0 <= t < 3 && cap >= 1 implies (#[trigger] after[6 * si + 3
                    * ii + t]) as int == cap_corner(si, true, ii, t) by {
                    assert(after[6 * si + 3 * ii + t] == before[6 * si + 3 * ii + t]);
                }
                assert forall|ii: int, t: int| 0 <= ii < i + 1 && 0 <= t < 3 implies (
                #[trigger] after[start + 3 * ii + t]) as int == cap_corner(si, cap == 0, ii, t) by {
                    if ii < i {
                        assert(after[start + 3 * ii + t] == before[start + 3 * ii + t]);
                    }
                }
                assert forall|k: int| 0 <= k < after.len() implies (#[trigger] after[k] as int) < 4
                    * (si + 1) by {
                    if k < before.len() {
                        assert(after[k] == before[k]);
                    }
                }
            }
            i = i + 1;
        }
        proof {
            if cap == 0 {
                assert forall|ii: int, t: int| 0 <= ii < si && 0 <= t < 3 implies (
                #[trigger] indices@[6 * si + 3 * ii + t]) as int == cap_corner(si, true, ii, t) by {
                    assert(indices@[start + 3 * ii + t] == indices@[6 * si + 3 * ii + t]);
                }
            } else {
                assert forall|ii: int, t: int| 0 <= ii < si && 0 <= t < 3 implies (
                #[trigger] indices@[9 * si + 3 * ii + t]) as int == cap_corner(si, false, ii, t) by {
                    assert(indices@[start + 3 * ii + t] == indices@[9 * si + 3 * ii + t]);
                }
            }
        }
        cap = cap + 1;
    }
    proof {
        assert(indices@.take(6 * si) == side);
        lemma_cell_list_exact(side, true, si, 1);
        let ints = indices@.map_values(|v: u32| v as int);
        let expected = cylinder_index_seq(segments);
        let side_ints = side.map_values(|v: u32| v as int);
        assert(si * 1 * 6 == 6 * si);
        assert forall|k: int| 0 <= k < ints.len() implies ints[k] == expected[k] by {
            if k < 6 * si {
                assert(indices@.take(6 * si)[k] == indices@[k]);
                assert(side_ints[k] == cell_list_seq(true, si, 1)[k]);
            } else {
                let m = k - 6 * si;
                if m < 3 * si {
                    assert(indices@[6 * si + 3 * (m / 3) + m % 3] as int == cap_corner(si, true, m / 3, m % 3));
                } else {
                    let m2 = m - 3 * si;
                    assert(indices@[9 * si + 3 * (m2 / 3) + m2 % 3] as int == cap_corner(si, false, m2 / 3, m2 % 3));
                }
            }
        }
        assert(ints =~= expected);
    }
    indices
}

} // verus!
