//! Sprite batch → index generation.
//!
//! Each sprite is drawn as a quad of four vertices (`4i .. 4i + 4` for the
//! `i`-th sprite) and two triangles. Supports u16 (16383 sprite limit) and
//! u32 index paths.

use vstd::prelude::*;
use crate::primitives::quad_offset;

verus! {

/// Maximum sprites per batch with u16 indices (65535 / 4 = 16383).
pub const MAX_SPRITES_PER_BATCH: usize = 16383;

/// `indices` holds, quad by quad, the six corners of the first `quads`
/// sprites' quads.
pub open spec fn is_quad_list(indices: Seq<int>, quads: int) -> bool {
    &&& indices.len() == 6 * quads
    &&& forall|q: int, t: int|
        0 <= q < quads && 0 <= t < 6 ==> #[trigger] indices[6 * q + t] == 4 * q + quad_offset(t)
}

/// Number of sprites that the u16 path draws out of `sprite_count`.
pub open spec fn u16_sprite_limit(sprite_count: int) -> int {
    if sprite_count < MAX_SPRITES_PER_BATCH {
        sprite_count
    } else {
        MAX_SPRITES_PER_BATCH as int
    }
}

/// Number of sprites that the u32 path draws out of `sprite_count`: those
/// whose first vertex number `4i` fits in a u32, the first 2^30 of them.
pub open spec fn u32_sprite_limit(sprite_count: int) -> int {
    if sprite_count <= 0x4000_0000 {
        sprite_count
    } else {
        0x4000_0000
    }
}

/// The quad list of the first `quads` sprites, written out: entry `k` is
/// corner `k % 6` of quad `k / 6`.
pub open spec fn quad_list_seq(quads: int) -> Seq<int> {
    Seq::new((6 * quads) as nat, |k: int| 4 * (k / 6) + quad_offset(k % 6))
}

/// `is_quad_list` pins the list down: it is `quad_list_seq`.
proof fn lemma_quad_list_exact(indices: Seq<int>, quads: int)
    requires
        quads >= 0,
        is_quad_list(indices, quads),
    ensures
        indices == quad_list_seq(quads),
{
    let expected = quad_list_seq(quads);
    assert forall|k: int| 0 <= k < indices.len() implies indices[k] == expected[k] by {
        assert(k == 6 * (k / 6) + k % 6);
        assert(indices[6 * (k / 6) + k % 6] == 4 * (k / 6) + quad_offset(k % 6));
    }
    assert(indices =~= expected);
}

/// Law: the u32 path has no 16383-sprite limit (every sprite whose first
/// vertex number fits in a u32 is drawn, 6 indices each), and on a batch
/// that the u16 path draws whole it gives the same indices.
pub proof fn law_u32_batch_matches_u16(sprite_count: int)
    requires
        0 <= sprite_count,
    ensures
        sprite_count <= 0x4000_0000 ==> u32_sprite_limit(sprite_count) == sprite_count
            && quad_list_seq(u32_sprite_limit(sprite_count)).len() == 6 * sprite_count,
        sprite_count <= MAX_SPRITES_PER_BATCH ==> quad_list_seq(u16_sprite_limit(sprite_count))
            == quad_list_seq(u32_sprite_limit(sprite_count)),
{
}

/// Push the six u16 indices of the quad of sprite `i`.
pub fn emit_quad_u16(i: usize, indices: &mut Vec<u16>)
    requires
        i < 16384,
    ensures
        final(indices)@.len() == old(indices)@.len() + 6,
        final(indices)@.take(old(indices)@.len() as int) == old(indices)@,
        forall|t: int|
            0 <= t < 6 ==> (#[trigger] final(indices)@[old(indices)@.len() + t]) as int == 4 * i
                + quad_offset(t),
{
    let base = (i * 4) as u16;
    indices.push(base);
    indices.push(base + 1);
    indices.push(base + 2);
    indices.push(base + 2);
    indices.push(base + 3);
    indices.push(base);
    proof {
        assert(final(indices)@.take(old(indices)@.len() as int) =~= old(indices)@);
    }
}

/// Push the six u32 indices of the quad of sprite `i`, if its first vertex
/// number `4i` fits in a u32; returns whether it did.
pub fn emit_quad_u32(i: usize, indices: &mut Vec<u32>) -> (emitted: bool)
    ensures
        emitted == (4 * i <= u32::MAX),
        emitted ==> final(indices)@.len() == old(indices)@.len() + 6,
        !emitted ==> final(indices)@ == old(indices)@,
        final(indices)@.take(old(indices)@.len() as int) == old(indices)@,
        emitted ==> forall|t: int|
            0 <= t < 6 ==> (#[trigger] final(indices)@[old(indices)@.len() + t]) as int == 4 * i
                + quad_offset(t),
{
    let base = match i.checked_mul(4) {
        Some(v) => {
            if v <= u32::MAX as usize {
                v as u32
            } else {
                proof {
                    assert(final(indices)@.take(old(indices)@.len() as int) =~= old(indices)@);
                }
                return false;
            }
        },
        None => {
            proof {
                assert(final(indices)@.take(old(indices)@.len() as int) =~= old(indices)@);
            }
            return false;
        },
    };
    indices.push(base);
    indices.push(base + 1);
    indices.push(base + 2);
    indices.push(base + 2);
    indices.push(base + 3);
    indices.push(base);
    proof {
        assert(final(indices)@.take(old(indices)@.len() as int) =~= old(indices)@);
    }
    true
}

/// The u16 indices of a batch of `sprite_count` sprites: the quads of the
/// first 16383 of them (larger batches are truncated). A count whose index
/// list size overflows gives no indices.
pub fn batch_indices_u16(sprite_count: usize) -> (indices: Vec<u16>)
    ensures
        sprite_count * 6 <= usize::MAX ==> is_quad_list(
            indices@.map_values(|v: u16| v as int),
            u16_sprite_limit(sprite_count as int),
        ),
        sprite_count * 6 <= usize::MAX ==> indices@.map_values(|v: u16| v as int)
            == quad_list_seq(u16_sprite_limit(sprite_count as int)),
        sprite_count * 6 > usize::MAX ==> indices@.len() == 0,
        forall|k: int|
            0 <= k < indices@.len() ==> (#[trigger] indices@[k] as int) < 4 * u16_sprite_limit(
                sprite_count as int,
            ),
{
    if sprite_count.checked_mul(6).is_none() {
        return Vec::new();
    }
    let count = if sprite_count < MAX_SPRITES_PER_BATCH {
        sprite_count
    } else {
        MAX_SPRITES_PER_BATCH
    };
    let mut indices: Vec<u16> = Vec::with_capacity(count * 6);
    let mut i: usize = 0;
    while i < count
        invariant
            count == u16_sprite_limit(sprite_count as int),
            i <= count,
            indices@.len() == 6 * i,
            forall|q: int, t: int|
                0 <= q < i && 0 <= t < 6 ==> (#[trigger] indices@[6 * q + t]) as int == 4 * q
                    + quad_offset(t),
            forall|k: int| 0 <= k < indices@.len() ==> (#[trigger] indices@[k] as int) < 4 * i,
        decreases count - i,
    {
        let ghost before = indices@;
        emit_quad_u16(i, &mut indices);
        proof {
            let after = indices@;
            assert forall|q: int, t: int| 0 <= q < i + 1 && 0 <= t < 6 implies (
            #[trigger] after[6 * q + t]) as int == 4 * q + quad_offset(t) by {
                if q < i {
                    assert(after.take(before.len() as int)[6 * q + t] == before[6 * q + t]);
                } else {
                    assert(6 * q + t == before.len() + t);
                }
            }
            assert forall|k: int| 0 <= k < after.len() implies (#[trigger] after[k] as int) < 4 * (i
                + 1) by {
                if k < before.len() {
                    assert(after.take(before.len() as int)[k] == before[k]);
                } else {
                    assert(after[before.len() + (k - before.len())] as int == 4 * i + quad_offset(
                        k - before.len(),
                    ));
                }
            }
        }
        i = i + 1;
    }
    proof {
        let ints = indices@.map_values(|v: u16| v as int);
        assert forall|q: int, t: int|
            0 <= q < count && 0 <= t < 6 implies #[trigger] ints[6 * q + t] == 4 * q + quad_offset(
            t,
        ) by {
            assert(indices@[6 * q + t] as int == 4 * q + quad_offset(t));
        }
        lemma_quad_list_exact(ints, count as int);
    }
    indices
}

/// The u32 indices of a batch of `sprite_count` sprites: the quads of every
/// sprite whose first vertex number fits in a u32 (the first 2^30; there is
/// no 16383-sprite limit). A count whose index list size overflows gives no
/// indices.
pub fn batch_indices_u32(sprite_count: usize) -> (indices: Vec<u32>)
    ensures
        sprite_count * 6 <= usize::MAX ==> is_quad_list(
            indices@.map_values(|v: u32| v as int),
            u32_sprite_limit(sprite_count as int),
        ),
        sprite_count * 6 <= usize::MAX ==> indices@.map_values(|v: u32| v as int)
            == quad_list_seq(u32_sprite_limit(sprite_count as int)),
        sprite_count * 6 > usize::MAX ==> indices@.len() == 0,
        forall|k: int|
            0 <= k < indices@.len() ==> (#[trigger] indices@[k] as int) < 4 * sprite_count,
{
    if sprite_count.checked_mul(6).is_none() {
        return Vec::new();
    }
    let mut indices: Vec<u32> = Vec::with_capacity(sprite_count * 6);
    let mut i: usize = 0;
    while i < sprite_count
        invariant
            sprite_count * 6 <= usize::MAX,
            i <= sprite_count,
            indices@.len() == 6 * u32_sprite_limit(i as int),
            forall|q: int, t: int|
                0 <= q < u32_sprite_limit(i as int) && 0 <= t < 6 ==> (#[trigger] indices@[6 * q
                    + t]) as int == 4 * q + quad_offset(t),
            forall|k: int| 0 <= k < indices@.len() ==> (#[trigger] indices@[k] as int) < 4 * i,
        decreases sprite_count - i,
    {
        let ghost before = indices@;
        let emitted = emit_quad_u32(i, &mut indices);
        proof {
            let after = indices@;
            if emitted {
                assert(u32_sprite_limit(i as int) == i);
                assert(u32_sprite_limit(i + 1) == i + 1);
                assert forall|q: int, t: int| 0 <= q < i + 1 && 0 <= t < 6 implies (
                #[trigger] after[6 * q + t]) as int == 4 * q + quad_offset(t) by {
                    if q < i {
                        assert(after.take(before.len() as int)[6 * q + t] == before[6 * q + t]);
                    } else {
                        assert(6 * q + t == before.len() + t);
                    }
                }
                assert forall|k: int| 0 <= k < after.len() implies (#[trigger] after[k] as int) < 4
                    * (i + 1) by {
                    if k < before.len() {
                        assert(after.take(before.len() as int)[k] == before[k]);
                    } else {
                        assert(after[before.len() + (k - before.len())] as int == 4 * i
                            + quad_offset(k - before.len()));
                    }
                }
            } else {
                assert(u32_sprite_limit(i + 1) == u32_sprite_limit(i as int));
            }
        }
        i = i + 1;
    }
    proof {
        let ints = indices@.map_values(|v: u32| v as int);
        let lim = u32_sprite_limit(sprite_count as int);
        assert forall|q: int, t: int| 0 <= q < lim && 0 <= t < 6 implies #[trigger] ints[6 * q + t]
            == 4 * q + quad_offset(t) by {
            assert(indices@[6 * q + t] as int == 4 * q + quad_offset(t));
        }
        lemma_quad_list_exact(ints, lim);
    }
    indices
}

} // verus!
