//! The session engine of a browser for a remote key-value store whose keys
//! live under colon-delimited namespaces.
//!
//! The engine turns a flat set of keys into an ordered tree, keeps the state
//! of cursor-based scans, decides which completion of a background task may
//! still be applied, and maintains the cached value of the selected key.
//! Every function here only computes: a command yields an
//! [`states::Outcome`] that names the store call to make, and the caller hands
//! the store's answer back to [`states::ZedisServerState::apply`].
//!
//! - [`helpers`]: keys as paths, the trie of the keys and the tree that is
//!   shown of it. The tree depends on the set of the keys alone, stands in
//!   order at every depth, and has one entry for every node that the keys
//!   call for.
//! - [`states`]: the session. Its commands and the answers to them are
//!   given twice: as functions on the mathematical value of the session,
//!   which say what happens, and as the executable methods, which are proved
//!   to do exactly that. What holds of several steps is proved of the former:
//!   that a superseded answer changes nothing, that paging ends, that adding
//!   a field and removing it again leaves the size as it was.
//! - [`views`]: what the view of the key tree decides.
//! - [`error`]: the failures of a store call.
//!
//! Verus proves every function of the library against its contract, with
//! these exceptions, which it takes on trust: the hash map and hash set of
//! `ahash` (in [`helpers::links`]), `String::push`, `Arc::get_mut` and
//! `String::from_utf8_lossy`.

pub mod error;
pub mod helpers;
pub mod states;
pub mod views;
