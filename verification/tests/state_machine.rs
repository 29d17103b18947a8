use treegen::state::{Action, Message, TreeGen};
use treegen::tree::TreeNode;

fn leaf(id: u128, name: &str) -> TreeNode {
    TreeNode { id, name: name.to_string(), is_checked: true, children: Vec::new() }
}

fn node(id: u128, name: &str, children: Vec<TreeNode>) -> TreeNode {
    TreeNode { id, name: name.to_string(), is_checked: true, children }
}

fn sample_tree() -> TreeNode {
    node(
        1,
        "root",
        vec![leaf(2, "a.txt"), leaf(3, "b.txt"), node(4, "sub", vec![leaf(5, "c.txt")])],
    )
}

#[test]
fn starts_empty() {
    let s = TreeGen::default();
    assert_eq!(s.folder_path, "");
    assert!(s.root.is_none());
    assert!(s.filter_root.is_none());
    assert!(!s.show_filter_modal);
}

#[test]
fn editing_the_path_only_records_it() {
    let mut s = TreeGen::default();
    let action = s.update(Message::FolderPathChanged("/tmp/somewhere".to_string()));
    assert!(matches!(action, Action::Nothing));
    assert_eq!(s.folder_path, "/tmp/somewhere");
    assert!(s.root.is_none());
}

#[test]
fn dialog_request_is_delegated() {
    let mut s = TreeGen::default();
    let action = s.update(Message::OpenFolderDialog);
    assert!(matches!(action, Action::PickFolder));
    assert!(s.root.is_none());
}

#[test]
fn cancelled_dialog_changes_nothing() {
    let mut s = TreeGen::default();
    s.update(Message::FolderPathChanged("kept".to_string()));
    let action = s.update(Message::FolderSelected(None));
    assert!(matches!(action, Action::Nothing));
    assert_eq!(s.folder_path, "kept");
    assert!(s.root.is_none());
}

#[test]
fn selected_folder_installs_tree_and_working_copy() {
    let mut s = TreeGen::default();
    s.update(Message::FolderSelected(Some(("/pick".to_string(), Some(sample_tree())))));
    assert_eq!(s.folder_path, "/pick");
    assert_eq!(s.root, Some(sample_tree()));
    assert_eq!(s.filter_root, Some(sample_tree()));
}

#[test]
fn failed_build_clears_the_trees() {
    let mut s = TreeGen::default();
    s.update(Message::FolderSelected(Some(("/pick".to_string(), Some(sample_tree())))));
    s.update(Message::FolderSelected(Some(("/gone".to_string(), None))));
    assert_eq!(s.folder_path, "/gone");
    assert!(s.root.is_none());
    assert!(s.filter_root.is_none());
}

#[test]
fn toggling_touches_the_working_copy_only() {
    let mut s = TreeGen::default();
    s.update(Message::FolderSelected(Some(("/pick".to_string(), Some(sample_tree())))));
    s.update(Message::ToggleNodeCheck(4, false));
    assert_eq!(s.root, Some(sample_tree()));
    let fr = s.filter_root.as_ref().unwrap();
    assert!(!fr.children[2].is_checked);
    assert!(fr.children[0].is_checked);
}

#[test]
fn toggling_with_stale_identity_is_a_noop() {
    let mut s = TreeGen::default();
    s.update(Message::FolderSelected(Some(("/pick".to_string(), Some(sample_tree())))));
    let action = s.update(Message::ToggleNodeCheck(12345, false));
    assert!(matches!(action, Action::Nothing));
    assert_eq!(s.filter_root, Some(sample_tree()));
}

#[test]
fn applying_the_filter_prunes_and_shows_the_result() {
    let mut s = TreeGen::default();
    s.update(Message::FolderSelected(Some(("/pick".to_string(), Some(sample_tree())))));
    s.update(Message::ShowFilterModal(true));
    s.update(Message::ToggleNodeCheck(4, false));
    let action = s.update(Message::ApplyFilter);
    assert!(matches!(action, Action::Nothing));
    assert!(!s.show_filter_modal);
    let root = s.root.as_ref().unwrap();
    assert_eq!(root.children.len(), 2);
    assert_eq!(root.children[0].name, "a.txt");
    assert_eq!(root.children[1].name, "b.txt");
    assert_eq!(s.root, s.filter_root);
}

#[test]
fn filtered_tree_renders_with_updated_connectors() {
    let mut s = TreeGen::default();
    s.update(Message::FolderSelected(Some(("/pick".to_string(), Some(sample_tree())))));
    s.update(Message::ToggleNodeCheck(4, false));
    s.update(Message::ApplyFilter);
    match s.update(Message::CopyToClipboard) {
        Action::Copy(text) => assert_eq!(text, "root\n|-- a.txt\n|__ b.txt\n"),
        _ => panic!("expected text to copy"),
    }
}

#[test]
fn copy_without_a_tree_does_nothing() {
    let mut s = TreeGen::default();
    let action = s.update(Message::CopyToClipboard);
    assert!(matches!(action, Action::Nothing));
}

#[test]
fn copy_hands_back_the_rendered_current_tree() {
    let mut s = TreeGen::default();
    s.update(Message::FolderSelected(Some(("/pick".to_string(), Some(sample_tree())))));
    match s.update(Message::CopyToClipboard) {
        Action::Copy(text) => {
            assert_eq!(text, "root\n|-- a.txt\n|-- b.txt\n|__ sub\n    |__ c.txt\n")
        },
        _ => panic!("expected text to copy"),
    }
}

#[test]
fn modal_flag_follows_the_event() {
    let mut s = TreeGen::default();
    s.update(Message::ShowFilterModal(true));
    assert!(s.show_filter_modal);
    s.update(Message::ShowFilterModal(false));
    assert!(!s.show_filter_modal);
}
