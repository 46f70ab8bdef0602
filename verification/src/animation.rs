//! Skeletal animation limits and channel targets.

use vstd::prelude::*;

verus! {

/// Maximum number of joints a skeleton uploads to the GPU.
pub const MAX_JOINTS: usize = 128;

/// What property an animation channel targets.
#[derive(Debug, Clone, Copy, PartialEq, Eq, Structural)]
pub enum AnimationProperty {
    Translation,
    Rotation,
    Scale,
}

/// Joint `j` of a skin lists scene node `node` among its children
/// (`joint_children[j]` holds the node indices of joint `j`'s children).
pub open spec fn lists_child(joint_children: Seq<Vec<usize>>, j: int, node: usize) -> bool {
    0 <= j < joint_children.len() && joint_children[j]@.contains(node)
}

/// `p` is the parent of scene node `node` among the first `n` joints: the
/// first of them that lists `node` as a child.
pub open spec fn is_first_parent(joint_children: Seq<Vec<usize>>, n: int, node: usize, p: int) -> bool {
    &&& 0 <= p < n
    &&& lists_child(joint_children, p, node)
    &&& forall|j: int| 0 <= j < p ==> !#[trigger] lists_child(joint_children, j, node)
}

/// No joint among the first `n` lists scene node `node` as a child.
pub open spec fn is_root_joint(joint_children: Seq<Vec<usize>>, n: int, node: usize) -> bool {
    forall|j: int| 0 <= j < n ==> !#[trigger] lists_child(joint_children, j, node)
}

/// `v` is the parent entry of joint `i`: −1 where no joint lists its node
/// as a child, else the position of the first joint that does.
pub open spec fn parent_entry(joint_nodes: Seq<usize>, joint_children: Seq<Vec<usize>>, i: int, v: i32) -> bool {
    let node = joint_nodes[i];
    let n = joint_nodes.len() as int;
    ||| (is_root_joint(joint_children, n, node) && v == -1)
    ||| exists|p: int| is_first_parent(joint_children, n, node, p) && v == p as i32
}

/// Whether `children` holds `node`.
fn holds_node(children: &Vec<usize>, node: usize) -> (r: bool)
    ensures
        r == children@.contains(node),
{
    let mut k: usize = 0;
    while k < children.len()
        invariant
            k <= children@.len(),
            forall|m: int| 0 <= m < k ==> children@[m] != node,
        decreases children.len() - k,
    {
        if children[k] == node {
            return true;
        }
        k = k + 1;
    }
    false
}

/// The parent of each joint of a skin, as a position in the skin's joint
/// list: `joint_nodes[i]` is the scene node of joint `i` and
/// `joint_children[i]` the scene nodes of its children. A joint's parent is
/// the first joint that lists its node as a child, or −1 where none does.
pub fn skin_joint_parents(joint_nodes: &Vec<usize>, joint_children: &Vec<Vec<usize>>) -> (parents: Vec<i32>)
    ensures
        parents@.len() == joint_nodes@.len(),
        forall|i: int|
            0 <= i < joint_nodes@.len() ==> parent_entry(
                joint_nodes@,
                joint_children@,
                i,
                #[trigger] parents@[i],
            ),
{
    let n = joint_nodes.len();
    let mut parents: Vec<i32> = Vec::with_capacity(n);
    let mut i: usize = 0;
    while i < n
        invariant
            n == joint_nodes@.len(),
            i <= n,
            parents@.len() == i,
            forall|ii: int|
                0 <= ii < i ==> parent_entry(joint_nodes@, joint_children@, ii, #[trigger] parents@[ii]),
        decreases n - i,
    {
        let node = joint_nodes[i];
        let mut parent: i32 = -1;
        let mut found = false;
        let ghost mut pj: int = -1;
        let mut j: usize = 0;
        while j < n && !found
            invariant
                n == joint_nodes@.len(),
                j <= n,
                !found ==> parent == -1 && forall|jj: int|
                    0 <= jj < j ==> !#[trigger] lists_child(joint_children@, jj, node),
                found ==> is_first_parent(joint_children@, n as int, node, pj) && parent
                    == pj as i32,
            decreases n - j, if found { 0int } else { 1int },
        {
            if j < joint_children.len() && holds_node(&joint_children[j], node) {
                proof {
                    pj = j as int;
                }
                parent = j as i32;
                found = true;
            } else {
                j = j + 1;
            }
        }
        let ghost before = parents@;
        parents.push(parent);
        proof {
            assert forall|ii: int| 0 <= ii < i + 1 implies parent_entry(
                joint_nodes@,
                joint_children@,
                ii,
                #[trigger] parents@[ii],
            ) by {
                if ii < i {
                    assert(parents@[ii] == before[ii]);
                } else if found {
                    assert(is_first_parent(joint_children@, n as int, node, pj) && parents@[ii]
                        == pj as i32);
                } else {
                    assert(is_root_joint(joint_children@, n as int, node));
                }
            }
        }
        i = i + 1;
    }
    parents
}

} // verus!
