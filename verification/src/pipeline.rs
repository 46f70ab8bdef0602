//! Sprite pipeline bookkeeping: how a batch is split into draw calls, and
//! the per-frame statistics.

use vstd::prelude::*;
use crate::batch::{MAX_SPRITES_PER_BATCH, u16_sprite_limit};

verus! {

/// Per-frame rendering statistics.
#[derive(Debug, Clone, Copy)]
pub struct FrameStats {
    pub draw_calls: u32,
    pub triangles: u32,
    pub sprites: u32,
}

impl Default for FrameStats {
    fn default() -> (s: Self)
        ensures
            s.draw_calls == 0,
            s.triangles == 0,
            s.sprites == 0,
    {
        FrameStats { draw_calls: 0, triangles: 0, sprites: 0 }
    }
}

/// One draw call of a sprite batch: sprites `first .. end`, which all use
/// one texture (indices `6 * first .. 6 * end`).
#[derive(Debug, Clone, Copy, PartialEq, Eq, Structural)]
pub struct DrawRun {
    pub texture_id: u64,
    pub first: u32,
    pub end: u32,
}

/// `runs` cuts the sprites whose textures are `ids` into maximal stretches
/// of consecutive sprites sharing a texture, in order.
pub open spec fn is_run_partition(ids: Seq<u64>, runs: Seq<DrawRun>) -> bool {
    &&& (ids.len() == 0 <==> runs.len() == 0)
    &&& runs.len() > 0 ==> runs[0].first == 0 && runs.last().end == ids.len()
    &&& forall|k: int| 0 <= k < runs.len() ==> #[trigger] runs[k].first < runs[k].end <= ids.len()
    &&& forall|k: int| 0 <= k < runs.len() - 1 ==> #[trigger] runs[k].end == runs[k + 1].first
    &&& forall|k: int, i: int|
        0 <= k < runs.len() && runs[k].first <= i < runs[k].end ==> #[trigger] ids[i]
            == #[trigger] runs[k].texture_id
    &&& forall|k: int|
        0 <= k < runs.len() - 1 ==> #[trigger] runs[k].texture_id != runs[k + 1].texture_id
}

/// Appending the run `start .. end` of texture `tex` to a partition of the
/// first `start` sprites gives a partition of the first `end`.
proof fn lemma_extend_partition(ids: Seq<u64>, runs: Seq<DrawRun>, start: int, end: int, tex: u64)
    requires
        0 <= start < end <= ids.len(),
        end <= u32::MAX,
        is_run_partition(ids.take(start), runs),
        runs.len() > 0 ==> runs.last().texture_id != tex,
        forall|m: int| start <= m < end ==> #[trigger] ids[m] == tex,
    ensures
        is_run_partition(
            ids.take(end),
            runs.push(DrawRun { texture_id: tex, first: start as u32, end: end as u32 }),
        ),
{
    let pre = ids.take(start);
    let post = ids.take(end);
    let run = DrawRun { texture_id: tex, first: start as u32, end: end as u32 };
    let r = runs.push(run);
    assert forall|k: int, m: int| 0 <= k < r.len() && r[k].first <= m < r[k].end implies #[trigger] post[m]
        == #[trigger] r[k].texture_id by {
        if k < runs.len() {
            assert(r[k] == runs[k]);
            assert(pre[m] == runs[k].texture_id);
        }
    }
    assert forall|k: int| 0 <= k < r.len() - 1 implies #[trigger] r[k].end == r[k + 1].first by {
        if k < runs.len() - 1 {
            assert(r[k] == runs[k] && r[k + 1] == runs[k + 1]);
        } else {
            assert(r[k] == runs.last());
        }
    }
    assert forall|k: int| 0 <= k < r.len() - 1 implies #[trigger] r[k].texture_id != r[k + 1].texture_id by {
        if k < runs.len() - 1 {
            assert(r[k] == runs[k] && r[k + 1] == runs[k + 1]);
        } else {
            assert(r[k] == runs.last());
        }
    }
    assert forall|k: int| 0 <= k < r.len() implies #[trigger] r[k].first < r[k].end <= post.len() by {
        if k < runs.len() {
            assert(r[k] == runs[k]);
        }
    }
}

/// Plan the draws of a sprite batch whose sprites use the textures `ids`:
/// one draw call per run of consecutive sprites sharing a texture, and the
/// frame statistics — the sprites, the triangles of the (at most 16383)
/// sprites whose quads are indexed, and the draw calls.
pub fn plan_sprite_draws(ids: &[u64]) -> (plan: (Vec<DrawRun>, FrameStats))
    requires
        ids@.len() * 6 <= u32::MAX,
    ensures
        is_run_partition(ids@, plan.0@),
        plan.1.draw_calls == plan.0@.len(),
        plan.1.sprites == ids@.len(),
        plan.1.triangles == 2 * u16_sprite_limit(ids@.len() as int),
{
    let n = ids.len();
    let mut runs: Vec<DrawRun> = Vec::new();
    if n > 0 {
        let mut run_start: usize = 0;
        let mut current = ids[0];
        let mut i: usize = 1;
        while i < n
            invariant
                n == ids@.len(),
                n * 6 <= u32::MAX,
                run_start < i <= n,
                current == ids@[run_start as int],
                forall|m: int| run_start <= m < i ==> #[trigger] ids@[m] == current,
                is_run_partition(ids@.take(run_start as int), runs@),
                runs@.len() <= run_start,
                runs@.len() > 0 ==> runs@.last().texture_id != current,
            decreases n - i,
        {
            if ids[i] != current {
                let ghost before = runs@;
                let run = DrawRun { texture_id: current, first: run_start as u32, end: i as u32 };
                runs.push(run);
                proof {
                    lemma_extend_partition(ids@, before, run_start as int, i as int, current);
                    assert(runs@ == before.push(run));
                }
                run_start = i;
                current = ids[i];
            }
            i = i + 1;
        }
        let ghost before = runs@;
        runs.push(DrawRun { texture_id: current, first: run_start as u32, end: n as u32 });
        proof {
            lemma_extend_partition(ids@, before, run_start as int, n as int, current);
            assert(ids@.take(n as int) =~= ids@);
        }
    }
    let count = if n < MAX_SPRITES_PER_BATCH {
        n
    } else {
        MAX_SPRITES_PER_BATCH
    };
    let stats = FrameStats {
        draw_calls: runs.len() as u32,
        triangles: (count * 2) as u32,
        sprites: n as u32,
    };
    (runs, stats)
}

} // verus!
