//! Sprite draw order — sorting a batch by z-order.

use vstd::prelude::*;

verus! {

/// Sprite `a` is drawn before sprite `b`: it has a lower z-order, or the same
/// z-order and was added earlier.
pub open spec fn z_before(z: Seq<i32>, a: int, b: int) -> bool {
    z[a] < z[b] || (z[a] == z[b] && a < b)
}

/// `order` lists sprites `lo .. hi` (by their index) in drawing order.
pub open spec fn z_sorted_run(z: Seq<i32>, order: Seq<usize>, lo: int, hi: int) -> bool {
    &&& order.len() == hi - lo
    &&& forall|k: int| 0 <= k < order.len() ==> lo <= #[trigger] order[k] < hi
    &&& forall|a: int, b: int|
        0 <= a < b < order.len() ==> z_before(z, #[trigger] order[a] as int, #[trigger] order[b] as int)
}

fn draws_before(z: &[i32], a: usize, b: usize) -> (r: bool)
    requires
        a < z@.len(),
        b < z@.len(),
    ensures
        r == z_before(z@, a as int, b as int),
{
    z[a] < z[b] || (z[a] == z[b] && a < b)
}

/// Merge the drawing orders of sprites `lo .. mid` and `mid .. hi`.
fn merge_runs(z: &[i32], left: &Vec<usize>, right: &Vec<usize>, lo: usize, mid: usize, hi: usize) -> (out: Vec<usize>)
    requires
        lo <= mid <= hi <= z@.len(),
        z_sorted_run(z@, left@, lo as int, mid as int),
        z_sorted_run(z@, right@, mid as int, hi as int),
    ensures
        z_sorted_run(z@, out@, lo as int, hi as int),
{
    let mut out: Vec<usize> = Vec::with_capacity(hi - lo);
    let mut i: usize = 0;
    let mut j: usize = 0;
    while i < left.len() || j < right.len()
        invariant
            lo <= mid <= hi <= z@.len(),
            z_sorted_run(z@, left@, lo as int, mid as int),
            z_sorted_run(z@, right@, mid as int, hi as int),
            i <= left@.len(),
            j <= right@.len(),
            out@.len() == i + j,
            forall|k: int| 0 <= k < out@.len() ==> lo <= #[trigger] out@[k] < hi,
            forall|a: int, b: int|
                0 <= a < b < out@.len() ==> z_before(
                    z@,
                    #[trigger] out@[a] as int,
                    #[trigger] out@[b] as int,
                ),
            i < left@.len() ==> forall|k: int|
                0 <= k < out@.len() ==> z_before(z@, #[trigger] out@[k] as int, left@[i as int] as int),
            j < right@.len() ==> forall|k: int|
                0 <= k < out@.len() ==> z_before(z@, #[trigger] out@[k] as int, right@[j as int] as int),
        decreases left@.len() + right@.len() - i - j,
    {
        let ghost before = out@;
        let take_left = if i == left.len() {
            false
        } else if j == right.len() {
            true
        } else {
            draws_before(z, left[i], right[j])
        };
        if take_left {
            let x = left[i];
            out.push(x);
            proof {
                assert forall|k: int| 0 <= k < out@.len() implies lo <= #[trigger] out@[k] < hi by {
                    if k < before.len() {
                        assert(out@[k] == before[k]);
                    }
                }
                assert forall|a: int, b: int| 0 <= a < b < out@.len() implies z_before(
                    z@,
                    #[trigger] out@[a] as int,
                    #[trigger] out@[b] as int,
                ) by {
                    assert(out@[a] == before[a]);
                    if b < before.len() {
                        assert(out@[b] == before[b]);
                    }
                }
                if i + 1 < left@.len() {
                    assert(z_before(z@, x as int, left@[i + 1] as int));
                    assert forall|k: int| 0 <= k < out@.len() implies z_before(
                        z@,
                        #[trigger] out@[k] as int,
                        left@[i + 1] as int,
                    ) by {
                        if k < before.len() {
                            assert(out@[k] == before[k]);
                            assert(z_before(z@, before[k] as int, x as int));
                        }
                    }
                }
                if j < right@.len() {
                    assert(z_before(z@, x as int, right@[j as int] as int));
                    assert forall|k: int| 0 <= k < out@.len() implies z_before(
                        z@,
                        #[trigger] out@[k] as int,
                        right@[j as int] as int,
                    ) by {
                        if k < before.len() {
                            assert(out@[k] == before[k]);
                        }
                    }
                }
            }
            i = i + 1;
        } else {
            let x = right[j];
            out.push(x);
            proof {
                if i < left@.len() {
                    // distinct sprites from the two halves are never tied
                    assert(left@[i as int] < mid <= x);
                    assert(z_before(z@, x as int, left@[i as int] as int));
                }
                assert forall|k: int| 0 <= k < out@.len() implies lo <= #[trigger] out@[k] < hi by {
                    if k < before.len() {
                        assert(out@[k] == before[k]);
                    }
                }
                assert forall|a: int, b: int| 0 <= a < b < out@.len() implies z_before(
                    z@,
                    #[trigger] out@[a] as int,
                    #[trigger] out@[b] as int,
                ) by {
                    assert(out@[a] == before[a]);
                    if b < before.len() {
                        assert(out@[b] == before[b]);
                    }
                }
                if j + 1 < right@.len() {
                    assert(z_before(z@, x as int, right@[j + 1] as int));
                    assert forall|k: int| 0 <= k < out@.len() implies z_before(
                        z@,
                        #[trigger] out@[k] as int,
                        right@[j + 1] as int,
                    ) by {
                        if k < before.len() {
                            assert(out@[k] == before[k]);
                            assert(z_before(z@, before[k] as int, x as int));
                        }
                    }
                }
                if i < left@.len() {
                    assert forall|k: int| 0 <= k < out@.len() implies z_before(
                        z@,
                        #[trigger] out@[k] as int,
                        left@[i as int] as int,
                    ) by {
                        if k < before.len() {
                            assert(out@[k] == before[k]);
                        }
                    }
                }
            }
            j = j + 1;
        }
    }
    out
}

/// Drawing order of sprites `lo .. hi` (merge sort).
fn sort_range(z: &[i32], lo: usize, hi: usize) -> (order: Vec<usize>)
    requires
        lo <= hi <= z@.len(),
    ensures
        z_sorted_run(z@, order@, lo as int, hi as int),
    decreases hi - lo,
{
    if hi - lo <= 1 {
        let mut order: Vec<usize> = Vec::new();
        if hi > lo {
            order.push(lo);
        }
        return order;
    }
    let mid = lo + (hi - lo) / 2;
    let left = sort_range(z, lo, mid);
    let right = sort_range(z, mid, hi);
    merge_runs(z, &left, &right, lo, mid, hi)
}

/// The order in which to draw sprites whose z-orders are `z_orders`: by
/// z-order, lowest first, keeping the order in which they were added among
/// equal z-orders (a stable sort). Each sprite index appears exactly once.
pub fn z_sort_order(z_orders: &[i32]) -> (order: Vec<usize>)
    ensures
        z_sorted_run(z_orders@, order@, 0, z_orders@.len() as int),
        forall|i: usize| i < z_orders@.len() ==> #[trigger] order@.contains(i),
{
    let n = z_orders.len();
    let order = sort_range(z_orders, 0, n);
    proof {
        let ints = order@.map_values(|u: usize| u as int);
        assert(ints.no_duplicates()) by {
            assert forall|a: int, b: int| 0 <= a < ints.len() && 0 <= b < ints.len() && a != b
                implies ints[a] != ints[b] by {
                if a < b {
                    assert(z_before(z_orders@, order@[a] as int, order@[b] as int));
                } else {
                    assert(z_before(z_orders@, order@[b] as int, order@[a] as int));
                }
            }
        }
        ints.unique_seq_to_set();
        vstd::set_lib::lemma_int_range(0, n as int);
        let range = vstd::set_lib::set_int_range(0, n as int);
        assert(ints.to_set().subset_of(range)) by {
            assert forall|x: int| ints.to_set().contains(x) implies range.contains(x) by {
                let k = choose|k: int| 0 <= k < ints.len() && ints[k] == x;
                assert(order@[k] < n);
            }
        }
        vstd::set_lib::lemma_subset_equality(ints.to_set(), range);
        assert forall|i: usize| i < n implies #[trigger] order@.contains(i) by {
            assert(range.contains(i as int));
            assert(ints.to_set().contains(i as int));
            let k = choose|k: int| 0 <= k < ints.len() && ints[k] == i as int;
            assert(order@[k] == i);
        }
    }
    order
}

} // verus!
