use treegen::tree::TreeNode;

fn leaf(id: u128, name: &str) -> TreeNode {
    TreeNode { id, name: name.to_string(), is_checked: true, children: Vec::new() }
}

fn node(id: u128, name: &str, children: Vec<TreeNode>) -> TreeNode {
    TreeNode { id, name: name.to_string(), is_checked: true, children }
}

/// A root holding `a.txt`, `b.txt` and a subdirectory `sub` with `c.txt`,
/// in that enumeration order.
fn sample_tree() -> TreeNode {
    node(
        1,
        "root",
        vec![leaf(2, "a.txt"), leaf(3, "b.txt"), node(4, "sub", vec![leaf(5, "c.txt")])],
    )
}

fn all_unchecked(n: &TreeNode) -> bool {
    !n.is_checked && n.children.iter().all(all_unchecked)
}

fn descendants_checked(n: &TreeNode) -> bool {
    n.children.iter().all(|c| c.is_checked && descendants_checked(c))
}

fn count_nodes(n: &TreeNode) -> usize {
    1 + n.children.iter().map(count_nodes).sum::<usize>()
}

#[test]
fn new_node_is_checked_and_childless() {
    let n = TreeNode::new("thing".to_string());
    assert_eq!(n.name, "thing");
    assert!(n.is_checked);
    assert!(n.children.is_empty());
}

#[test]
fn fresh_identities_differ_between_nodes() {
    let a = TreeNode::new("a".to_string());
    let b = TreeNode::new("b".to_string());
    assert_ne!(a.id, b.id);
}

#[test]
fn push_child_appends_in_order() {
    let mut n = TreeNode::new("dir".to_string());
    n.push_child(leaf(10, "first"));
    n.push_child(leaf(11, "second"));
    assert_eq!(n.children.len(), 2);
    assert_eq!(n.children[0].name, "first");
    assert_eq!(n.children[1].name, "second");
}

#[test]
fn set_checked_recursive_reaches_every_descendant() {
    let mut t = sample_tree();
    t.set_checked_recursive(false);
    assert!(all_unchecked(&t));
    t.set_checked_recursive(true);
    assert!(!all_unchecked(&t));
    assert!(descendants_checked(&t));
}

#[test]
fn toggle_leaves_siblings_alone() {
    let mut t = sample_tree();
    t.update_check_by_id(4, false);
    assert!(t.is_checked);
    assert!(t.children[0].is_checked);
    assert!(t.children[1].is_checked);
    assert!(!t.children[2].is_checked);
    assert!(!t.children[2].children[0].is_checked);
}

#[test]
fn toggle_by_unknown_identity_is_a_noop() {
    let mut t = sample_tree();
    let before = t.clone();
    t.update_check_by_id(999, false);
    assert_eq!(t, before);
}

#[test]
fn apply_filter_keeps_only_checked_descendants() {
    let mut t = sample_tree();
    t.update_check_by_id(3, false);
    t.update_check_by_id(5, false);
    t.apply_filter();
    assert!(descendants_checked(&t));
    assert_eq!(t.children.len(), 2);
    assert_eq!(t.children[0].name, "a.txt");
    assert_eq!(t.children[1].name, "sub");
    assert!(t.children[1].children.is_empty());
}

#[test]
fn apply_filter_never_removes_the_root() {
    let mut t = sample_tree();
    t.is_checked = false;
    t.apply_filter();
    assert_eq!(t.name, "root");
    assert_eq!(t.id, 1);
    assert!(!t.is_checked);
    assert_eq!(t.children.len(), 3);
}

#[test]
fn apply_filter_discards_an_excluded_subtree_wholesale() {
    let mut t = sample_tree();
    t.update_check_by_id(4, false);
    t.children[2].children[0].is_checked = true;
    t.apply_filter();
    assert_eq!(t.children.len(), 2);
    assert_eq!(t.children[0].name, "a.txt");
    assert_eq!(t.children[1].name, "b.txt");
}

#[test]
fn clone_copies_identities_verbatim() {
    let t = sample_tree();
    let mut copy = t.clone();
    assert_eq!(t, copy);
    copy.update_check_by_id(4, false);
    assert!(!copy.children[2].is_checked);
    assert!(t.children[2].is_checked);
}
