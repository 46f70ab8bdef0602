use soorat::animation::skin_joint_parents;

#[test]
fn joint_parents_follow_the_children_lists() {
    // joints on scene nodes 5, 6, 7: 5 → 6 → 7
    let nodes = vec![5usize, 6, 7];
    let children = vec![vec![6usize], vec![7], vec![]];
    assert_eq!(skin_joint_parents(&nodes, &children), vec![-1, 0, 1]);
}

#[test]
fn joint_parent_is_the_first_joint_listing_it() {
    // nodes 10 and 11 both list node 12; a child outside the skin is ignored
    let nodes = vec![12usize, 10, 11];
    let children = vec![vec![99usize], vec![12], vec![12, 10]];
    assert_eq!(skin_joint_parents(&nodes, &children), vec![1, 2, -1]);
}

#[test]
fn joint_parents_of_an_empty_or_flat_skin() {
    assert!(skin_joint_parents(&vec![], &vec![]).is_empty());
    assert_eq!(skin_joint_parents(&vec![3, 4], &vec![]), vec![-1, -1]);
}
