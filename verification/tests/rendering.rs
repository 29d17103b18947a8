use treegen::tree::TreeNode;

fn leaf(id: u128, name: &str) -> TreeNode {
    TreeNode { id, name: name.to_string(), is_checked: true, children: Vec::new() }
}

fn node(id: u128, name: &str, children: Vec<TreeNode>) -> TreeNode {
    TreeNode { id, name: name.to_string(), is_checked: true, children }
}

fn sample_tree() -> TreeNode {
    node(
        1,
        "root",
        vec![leaf(2, "a.txt"), leaf(3, "b.txt"), node(4, "sub", vec![leaf(5, "c.txt")])],
    )
}

fn count_nodes(n: &TreeNode) -> usize {
    1 + n.children.iter().map(count_nodes).sum::<usize>()
}

#[test]
fn renders_the_sample_tree_exactly() {
    let t = sample_tree();
    let text = t.to_string_recursive(0, true, &[]);
    assert_eq!(text, "root\n|-- a.txt\n|-- b.txt\n|__ sub\n    |__ c.txt\n");
}

#[test]
fn renders_excluded_then_filtered_tree_exactly() {
    let mut t = sample_tree();
    t.update_check_by_id(4, false);
    t.apply_filter();
    let text = t.to_string_recursive(0, true, &[]);
    assert_eq!(text, "root\n|-- a.txt\n|__ b.txt\n");
}

#[test]
fn renders_a_lone_node_as_one_line() {
    let t = leaf(7, "only");
    assert_eq!(t.to_string_recursive(0, true, &[]), "only\n");
}

#[test]
fn rendering_twice_gives_identical_text() {
    let t = sample_tree();
    let first = t.to_string_recursive(0, true, &[]);
    let second = t.to_string_recursive(0, true, &[]);
    assert_eq!(first, second);
}

#[test]
fn rendering_does_not_change_the_tree() {
    let t = sample_tree();
    let before = t.clone();
    let _ = t.to_string_recursive(0, true, &[]);
    assert_eq!(t, before);
}

#[test]
fn one_line_per_node() {
    let t = sample_tree();
    let text = t.to_string_recursive(0, true, &[]);
    assert_eq!(text.chars().filter(|c| *c == '\n').count(), count_nodes(&t));
    let deep = node(1, "a", vec![node(2, "b", vec![node(3, "c", vec![leaf(4, "d")])])]);
    let text = deep.to_string_recursive(0, true, &[]);
    assert_eq!(text.chars().filter(|c| *c == '\n').count(), 4);
}

#[test]
fn continuation_bars_are_drawn_for_open_ancestors() {
    let t = node(
        1,
        "top",
        vec![
            node(2, "first", vec![leaf(3, "inner")]),
            leaf(4, "last"),
        ],
    );
    let text = t.to_string_recursive(0, true, &[]);
    assert_eq!(text, "top\n|-- first\n|   |__ inner\n|__ last\n");
}

#[test]
fn children_render_in_stored_order() {
    let t = node(1, "root", vec![leaf(2, "zebra"), leaf(3, "apple"), leaf(4, "mango")]);
    let text = t.to_string_recursive(0, true, &[]);
    assert_eq!(text, "root\n|-- zebra\n|-- apple\n|__ mango\n");
}

#[test]
fn last_child_is_positional_not_selection_dependent() {
    let mut t = node(1, "root", vec![leaf(2, "kept"), leaf(3, "dropped")]);
    t.update_check_by_id(3, false);
    let text = t.to_string_recursive(0, true, &[]);
    assert_eq!(text, "root\n|-- kept\n|__ dropped\n");
}
