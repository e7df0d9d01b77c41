//! The tree of the keys.

pub mod key_path;
pub mod key_tree;
pub mod links;

pub use key_tree::{build_key_tree, KeyTrie, TreeItem};
