//! The application state and its event step: holds the current tree and the
//! filter working copy, and answers each event with the next state and what
//! outside work — opening a folder dialog, placing text on the clipboard —
//! the surrounding program should do. The outside work itself happens
//! elsewhere; this step only decides.

use vstd::prelude::*;

use crate::render::render_tree;
use crate::tree::{
    lemma_prune_height, lemma_skeleton_height, lemma_toggle_skeleton, prune_tree, toggle_tree,
    tree_height, TreeNode,
};

verus! {

/// An event handed to [`TreeGen::update`].
#[derive(Debug, Clone)]
pub enum Message {
    /// The user edited the path field.
    FolderPathChanged(String),
    /// The user asked for the folder dialog.
    OpenFolderDialog,
    /// The dialog's outcome: nothing if it was cancelled; otherwise the
    /// chosen path together with the tree built from it, or no tree if the
    /// build failed with an I/O error.
    FolderSelected(Option<(String, Option<TreeNode>)>),
    /// The user confirmed the filter: prune the working copy and show it.
    ApplyFilter,
    /// The user toggled the node with this identity to this state.
    ToggleNodeCheck(u128, bool),
    /// The user opened or closed the filter view.
    ShowFilterModal(bool),
    /// The user asked for the rendered tree on the clipboard.
    CopyToClipboard,
}

/// What the surrounding program is asked to do after a step.
#[derive(Debug, Clone)]
pub enum Action {
    /// Nothing to do.
    Nothing,
    /// Open the folder dialog and answer with [`Message::FolderSelected`].
    PickFolder,
    /// Place this text on the system clipboard.
    Copy(String),
}

/// The application state: the path field, the tree on display, whether the
/// filter view is open, and the filter working copy.
pub struct TreeGen {
    pub folder_path: String,
    pub root: Option<TreeNode>,
    pub show_filter_modal: bool,
    pub filter_root: Option<TreeNode>,
}

/// Machine limit only: an incoming tree must be shallow enough for the
/// renderer's depth counter. Any tree that fits in memory satisfies this.
pub open spec fn message_wf(m: Message) -> bool {
    m matches Message::FolderSelected(Some((p, Some(t)))) ==> tree_height(t@) <= usize::MAX
}

impl TreeGen {
    /// Machine limit only: each held tree is shallow enough for the
    /// renderer's depth counter. Any tree that fits in memory satisfies it.
    pub open spec fn wf(self) -> bool {
        &&& (self.root matches Some(r) ==> tree_height(r@) <= usize::MAX)
        &&& (self.filter_root matches Some(r) ==> tree_height(r@) <= usize::MAX)
    }

    /// One step of the application: consumes an event, moves to the next
    /// state, and says what outside work is owed. Editing the path only
    /// records it; a dialog request asks the caller to open one; a dialog
    /// outcome installs the new tree and its working copy (or clears them
    /// when the build failed, or changes nothing when cancelled); a toggle
    /// rewrites the working copy by identity; applying the filter prunes
    /// the working copy, shows the result and closes the filter view; a
    /// copy request hands back the rendered current tree.
    pub fn update(&mut self, message: Message) -> (action: Action)
        requires
            old(self).wf(),
            message_wf(message),
        ensures
            final(self).wf(),
            match message {
                Message::FolderPathChanged(p) => {
                    &&& final(self).folder_path == p
                    &&& final(self).root == old(self).root
                    &&& final(self).show_filter_modal == old(self).show_filter_modal
                    &&& final(self).filter_root == old(self).filter_root
                    &&& action is Nothing
                },
                Message::OpenFolderDialog => {
                    &&& *final(self) == *old(self)
                    &&& action is PickFolder
                },
                Message::FolderSelected(choice) => match choice {
                    Option::Some((p, built)) => {
                        &&& final(self).folder_path == p
                        &&& final(self).show_filter_modal == old(self).show_filter_modal
                        &&& match built {
                            Option::Some(t) => {
                                &&& final(self).root matches Some(r) && r@ == t@
                                &&& final(self).filter_root matches Some(f) && f@ == t@
                            },
                            Option::None => {
                                &&& final(self).root is None
                                &&& final(self).filter_root is None
                            },
                        }
                        &&& action is Nothing
                    },
                    Option::None => {
                        &&& *final(self) == *old(self)
                        &&& action is Nothing
                    },
                },
                Message::ToggleNodeCheck(id, b) => {
                    &&& final(self).folder_path == old(self).folder_path
                    &&& final(self).root == old(self).root
                    &&& final(self).show_filter_modal == old(self).show_filter_modal
                    &&& match old(self).filter_root {
                        Option::Some(fr) => final(self).filter_root matches Some(f) && f@
                            == toggle_tree(fr@, id, b),
                        Option::None => final(self).filter_root is None,
                    }
                    &&& action is Nothing
                },
                Message::ApplyFilter => {
                    &&& final(self).folder_path == old(self).folder_path
                    &&& !final(self).show_filter_modal
                    &&& match old(self).filter_root {
                        Option::Some(fr) => {
                            &&& final(self).filter_root matches Some(f) && f@ == prune_tree(fr@)
                            &&& final(self).root matches Some(r) && r@ == prune_tree(fr@)
                        },
                        Option::None => {
                            &&& final(self).filter_root is None
                            &&& final(self).root == old(self).root
                        },
                    }
                    &&& action is Nothing
                },
                Message::ShowFilterModal(show) => {
                    &&& final(self).folder_path == old(self).folder_path
                    &&& final(self).root == old(self).root
                    &&& final(self).show_filter_modal == show
                    &&& final(self).filter_root == old(self).filter_root
                    &&& action is Nothing
                },
                Message::CopyToClipboard => {
                    &&& *final(self) == *old(self)
                    &&& match old(self).root {
                        Option::Some(r) => action matches Action::Copy(text) && text@
                            == render_tree(r@, 0, true, Seq::<bool>::empty()),
                        Option::None => action is Nothing,
                    }
                },
            },
    {
        match message {
            Message::FolderPathChanged(p) => {
                self.folder_path = p;
                Action::Nothing
            },
            Message::OpenFolderDialog => Action::PickFolder,
            Message::FolderSelected(choice) => {
                match choice {
                    Some((p, built)) => {
                        self.folder_path = p;
                        match built {
                            Some(t) => {
                                proof {
                                    assert(tree_height(t@) <= usize::MAX);
                                }
                                self.filter_root = Some(t.clone());
                                self.root = Some(t);
                            },
                            None => {
                                self.root = None;
                                self.filter_root = None;
                            },
                        }
                    },
                    None => {},
                }
                Action::Nothing
            },
            Message::ToggleNodeCheck(id, b) => {
                let taken = self.filter_root.take();
                match taken {
                    Some(mut fr) => {
                        let ghost orig = fr@;
                        fr.update_check_by_id(id, b);
                        proof {
                            lemma_toggle_skeleton(orig, id, b);
                            lemma_skeleton_height(fr@, orig);
                        }
                        self.filter_root = Some(fr);
                    },
                    None => {},
                }
                Action::Nothing
            },
            Message::ApplyFilter => {
                let taken = self.filter_root.take();
                match taken {
                    Some(mut fr) => {
                        let ghost orig = fr@;
                        fr.apply_filter();
                        proof {
                            lemma_prune_height(orig);
                        }
                        self.root = Some(fr.clone());
                        self.filter_root = Some(fr);
                    },
                    None => {},
                }
                self.show_filter_modal = false;
                Action::Nothing
            },
            Message::ShowFilterModal(show) => {
                self.show_filter_modal = show;
                Action::Nothing
            },
            Message::CopyToClipboard => {
                match &self.root {
                    Some(r) => {
                        let empty: Vec<bool> = Vec::new();
                        let text = r.to_string_recursive(0, true, empty.as_slice());
                        Action::Copy(text)
                    },
                    None => Action::Nothing,
                }
            },
        }
    }
}

impl Default for TreeGen {
    /// The starting state: empty path, no tree, filter view closed.
    fn default() -> (s: Self)
        ensures
            s.folder_path@ == Seq::<char>::empty(),
            s.root is None,
            !s.show_filter_modal,
            s.filter_root is None,
            s.wf(),
    {
        TreeGen { folder_path: String::new(), root: None, show_filter_modal: false, filter_root: None }
    }
}

} // verus!
