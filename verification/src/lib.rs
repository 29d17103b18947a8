//! A filesystem-tree diagram library: an owned tree of named, checkable
//! nodes, a downward-propagating selection filter, and a deterministic
//! renderer that draws the tree with `|--`, `|__` and `|   ` markers.

pub mod ident;
pub mod render;
pub mod state;
pub mod tree;
