//! What the views decide.

pub mod key_tree;

pub use key_tree::{TreeStatus, TreeUpdate, ZedisKeyTree};
