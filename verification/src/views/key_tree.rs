//! What the view of the key tree decides: when the tree is built anew,
//! what a click on an entry does, and what is shown in place of an empty
//! tree.

use vstd::prelude::*;
use vstd::string::StringExecFns;

use crate::helpers::key_path::DELIMITER;
use crate::helpers::key_tree::{
    display_of, entries_of, in_order, key_set, lemma_display_in_order, lemma_display_of_no_keys,
    KeyTrie, TreeItem,
};
use crate::helpers::links::{
    members, members_clear, members_contains, members_insert, members_remove,
    members_with_capacity,
};
use crate::states::server::value::opt_text;
use crate::states::server::{Outcome, OutcomeView, QueryMode, ServerView, ZedisServerState};

verus! {

/// The room made for expanded folders at the start.
pub const EXPANDED_ITEMS_INITIAL_CAPACITY: usize = 10;

/// The tree is shown fully expanded while fewer keys than this were found.
pub const AUTO_EXPAND_THRESHOLD: usize = 20;

/// What is shown in place of the tree.
#[derive(Debug, Clone, PartialEq, Eq)]
pub enum TreeStatus {
    /// Nothing: the tree itself is shown.
    Hidden,
    /// An empty place.
    Blank,
    /// The message that the key that was looked up does not exist.
    KeyNotExists,
    /// The message that no keys were found.
    NoKeysFound,
    /// The text of an error.
    Error(String),
}

/// The mathematical value of a [`TreeStatus`].
pub ghost enum StatusView {
    Hidden,
    Blank,
    KeyNotExists,
    NoKeysFound,
    Error(Seq<char>),
}

impl View for TreeStatus {
    type V = StatusView;

    open spec fn view(&self) -> StatusView {
        match self {
            TreeStatus::Hidden => StatusView::Hidden,
            TreeStatus::Blank => StatusView::Blank,
            TreeStatus::KeyNotExists => StatusView::KeyNotExists,
            TreeStatus::NoKeysFound => StatusView::NoKeysFound,
            TreeStatus::Error(text) => StatusView::Error(text@),
        }
    }
}

/// A tree to show in place of the one that is shown.
#[derive(Debug, PartialEq, Eq)]
pub struct TreeUpdate {
    /// The entries, in order.
    pub items: Vec<TreeItem>,
    /// Whether every folder is to be shown expanded.
    pub expand_all: bool,
}

/// The state of the view of the key tree.
pub struct ZedisKeyTree {
    /// The server whose keys are shown.
    server_id: String,
    /// The generation of the key tree that is shown, once one is.
    key_tree_id: Option<u64>,
    /// Whether there is nothing to show and nothing on its way.
    is_empty: bool,
    /// How the keys are looked for.
    query_mode: QueryMode,
    /// The text of the error that kept the keys from being loaded.
    error: Option<String>,
    /// The full paths of the folders that are expanded.
    expanded_items: ahash::AHashSet<String>,
    /// The trie of the keys that are shown.
    trie: KeyTrie,
    /// How many of the session's keys are in the trie.
    merged: usize,
}

/// The mathematical value of a [`ZedisKeyTree`].
#[verifier::ext_equal]
pub ghost struct KeyTreeView {
    pub server_id: Seq<char>,
    pub key_tree_id: Option<u64>,
    pub is_empty: bool,
    pub query_mode: QueryMode,
    pub error: Option<Seq<char>>,
    pub expanded: Set<Seq<char>>,
    pub keys: Set<Seq<char>>,
    pub merged: nat,
}

/// The prefix of the keys below the folder with the full path `folder`.
pub open spec fn folder_prefix(folder: Seq<char>) -> Seq<char> {
    folder.push(DELIMITER)
}

impl KeyTreeView {
    /// Whether the tree that is shown was built from the first keys of the
    /// session as it is now, so that only the keys after them are new.
    pub open spec fn follows(self, server: ServerView) -> bool {
        self.key_tree_id == Some(server.key_tree_id) && self.merged <= server.keys.len()
    }

    /// Brings the view up to the session. Nothing is built where the tree
    /// that is shown follows the session and no key is new. Otherwise the
    /// new keys are added to the tree where it follows the session, and the
    /// tree is built from all keys of the session where it does not, as after
    /// a new scan. The second part of the result says whether a tree was
    /// built, and if so whether it is to be shown fully expanded, which it is
    /// while the keys are few. Where the tree comes out empty, no folder
    /// stays expanded, and the view counts as empty unless a page is still on
    /// its way.
    pub open spec fn update_key_tree(self, server: ServerView) -> (KeyTreeView, Option<bool>) {
        if self.follows(server) && self.merged == server.keys.len() {
            (KeyTreeView { query_mode: server.query_mode, ..self }, None)
        } else {
            let keys = if self.follows(server) {
                self.keys.union(key_set(server.keys.skip(self.merged as int)))
            } else {
                key_set(server.keys)
            };
            let none = keys == Set::<Seq<char>>::empty();
            (
                KeyTreeView {
                    query_mode: server.query_mode,
                    key_tree_id: Some(server.key_tree_id),
                    keys,
                    merged: server.keys.len(),
                    is_empty: none && !server.scaning,
                    expanded: if none {
                        Set::empty()
                    } else {
                        self.expanded
                    },
                    ..self
                },
                Some(server.keys.len() < AUTO_EXPAND_THRESHOLD),
            )
        }
    }

    /// Looks for the keys under `keyword`, unless a page is in flight.
    pub open spec fn handle_filter(self, server: ServerView, keyword: Seq<char>) -> (
        ServerView,
        OutcomeView,
    ) {
        if server.scaning {
            (server, OutcomeView::nothing())
        } else {
            server.handle_filter(keyword)
        }
    }

    /// A click on the entry `id`. On a folder that is expanded: it is
    /// collapsed. On a folder that is not: it is expanded, and the keys
    /// below it are asked for. On a key that is not the selected one: it is
    /// selected. On the selected key: nothing.
    pub open spec fn select_item(self, server: ServerView, id: Seq<char>, is_folder: bool) -> (
        KeyTreeView,
        ServerView,
        OutcomeView,
    ) {
        if is_folder {
            if self.expanded.contains(id) {
                (
                    KeyTreeView { expanded: self.expanded.remove(id), ..self },
                    server,
                    OutcomeView::nothing(),
                )
            } else {
                let (asked, out) = server.scan_prefix(folder_prefix(id));
                (KeyTreeView { expanded: self.expanded.insert(id), ..self }, asked, out)
            }
        } else if server.key == Some(id) {
            (self, server, OutcomeView::nothing())
        } else {
            let (asked, out) = server.select_key(id);
            (self, asked, out)
        }
    }

    /// What is shown in place of the tree. Nothing while a page is in
    /// flight, and nothing while there are keys and no error. Otherwise,
    /// where a key was looked up, the message that it does not exist if the
    /// store said so and an empty place if not; and where keys were scanned,
    /// the text of the error, an empty place for an empty text, or without an
    /// error the message that no keys were found.
    pub open spec fn tree_status(self, server: ServerView) -> StatusView {
        if server.scaning {
            StatusView::Hidden
        } else if !self.is_empty && self.error is None {
            StatusView::Hidden
        } else if self.query_mode == QueryMode::Exact {
            match server.value {
                Some(v) => if v.is_expired() {
                    StatusView::KeyNotExists
                } else {
                    StatusView::Blank
                },
                None => StatusView::Blank,
            }
        } else {
            match self.error {
                Some(text) => if text.len() == 0 {
                    StatusView::Blank
                } else {
                    StatusView::Error(text)
                },
                None => StatusView::NoKeysFound,
            }
        }
    }
}

impl ZedisKeyTree {
    /// Whether the state hangs together.
    pub closed spec fn wf(self) -> bool {
        self.trie.wf()
    }

    /// The mathematical value of the state.
    pub closed spec fn view(self) -> KeyTreeView {
        KeyTreeView {
            server_id: self.server_id@,
            key_tree_id: self.key_tree_id,
            is_empty: self.is_empty,
            query_mode: self.query_mode,
            error: opt_text(self.error),
            expanded: members(self.expanded_items),
            keys: self.trie.keys(),
            merged: self.merged as nat,
        }
    }

    /// The view of a session before anything was shown: no folder is
    /// expanded, and no tree was built.
    pub fn new(server: &ZedisServerState) -> (r: ZedisKeyTree)
        ensures
            r.wf(),
            r@ == (KeyTreeView {
                server_id: server@.server,
                key_tree_id: None,
                is_empty: false,
                query_mode: server@.query_mode,
                error: None,
                expanded: Set::empty(),
                keys: Set::empty(),
                merged: 0,
            }),
    {
        ZedisKeyTree {
            server_id: String::from_str(server.server_id()),
            key_tree_id: None,
            is_empty: false,
            query_mode: server.query_mode(),
            error: None,
            expanded_items: members_with_capacity(EXPANDED_ITEMS_INITIAL_CAPACITY),
            trie: KeyTrie::new(),
            merged: 0,
        }
    }

    /// How the keys are looked for, as the view has it.
    pub fn query_mode(&self) -> (r: QueryMode)
        ensures
            r == self@.query_mode,
    {
        self.query_mode
    }

    /// Whether there is nothing to show and nothing on its way.
    pub fn is_empty(&self) -> (r: bool)
        ensures
            r == self@.is_empty,
    {
        self.is_empty
    }

    /// Whether the folder with the full path `id` is expanded.
    pub fn is_expanded(&self, id: &str) -> (r: bool)
        ensures
            r == self@.expanded.contains(id@),
    {
        members_contains(&self.expanded_items, id)
    }

    /// Records the error that kept the keys from being loaded, or that
    /// there is none.
    pub fn set_error(&mut self, error: Option<String>)
        requires
            old(self).wf(),
        ensures
            final(self).wf(),
            final(self)@ == (KeyTreeView { error: opt_text(error), ..old(self)@ }),
    {
        self.error = error;
    }

    /// Takes note of the server that the session talks to. Returns whether
    /// that is another one than the view had, in which case what was typed as
    /// a keyword no longer applies.
    pub fn sync_server(&mut self, server: &ZedisServerState) -> (changed: bool)
        requires
            old(self).wf(),
        ensures
            final(self).wf(),
            final(self)@ == (KeyTreeView { server_id: server@.server, ..old(self)@ }),
            changed == (old(self)@.server_id != server@.server),
    {
        let now = String::from_str(server.server_id());
        if self.server_id == now {
            false
        } else {
            self.server_id = now;
            true
        }
    }

    /// Brings the view up to the session, and returns the tree to show
    /// where one was built. See [`KeyTreeView::update_key_tree`].
    pub fn update_key_tree(&mut self, server: &ZedisServerState) -> (r: Option<TreeUpdate>)
        requires
            old(self).wf(),
        ensures
            final(self).wf(),
            final(self)@ == old(self)@.update_key_tree(server@).0,
            match r {
                Some(update) => {
                    &&& old(self)@.update_key_tree(server@).1 == Some(update.expand_all)
                    &&& display_of(update.items@, final(self)@.keys)
                    &&& in_order(entries_of(update.items@))
                },
                None => old(self)@.update_key_tree(server@).1 is None,
            },
    {
        self.query_mode = server.query_mode();
        let generation = server.key_tree_id();
        let follows = match self.key_tree_id {
            Some(id) => id == generation && self.merged <= server.keys.len(),
            None => false,
        };
        if follows && self.merged == server.keys.len() {
            return None;
        }
        let from = if follows {
            self.merged
        } else {
            self.trie = KeyTrie::new();
            0
        };
        self.trie.insert_all(&server.keys, from);
        self.key_tree_id = Some(generation);
        self.merged = server.keys.len();
        let items = self.trie.to_tree_items();
        proof {
            lemma_display_of_no_keys(items@, self.trie.keys());
            lemma_display_in_order(entries_of(items@), self.trie.keys(), Seq::empty());
            if !follows {
                assert(server.keys.deep_view().skip(0) =~= server.keys.deep_view());
                assert(self.trie.keys() =~= key_set(server@.keys));
            }
        }
        if items.len() == 0 {
            members_clear(&mut self.expanded_items);
        }
        self.is_empty = items.len() == 0 && !server.scaning();
        let expand_all = server.scan_count() < AUTO_EXPAND_THRESHOLD;
        Some(TreeUpdate { items, expand_all })
    }

    /// Looks for the keys under `keyword`, unless a page is in flight.
    pub fn handle_filter(&self, server: &mut ZedisServerState, keyword: String) -> (out: Outcome)
        ensures
            final(server)@ == self@.handle_filter(old(server)@, keyword@).0,
            out@ == self@.handle_filter(old(server)@, keyword@).1,
    {
        if server.scaning() {
            Outcome::nothing()
        } else {
            server.handle_filter(keyword)
        }
    }

    /// Changes how the keys are looked for, in the session and in the
    /// view.
    pub fn set_query_mode(&mut self, server: &mut ZedisServerState, mode: QueryMode) -> (out: Outcome)
        requires
            old(self).wf(),
        ensures
            final(self).wf(),
            final(self)@ == (KeyTreeView { query_mode: mode, ..old(self)@ }),
            final(server)@ == old(server)@.set_query_mode(mode).0,
            out@ == old(server)@.set_query_mode(mode).1,
    {
        let out = server.set_query_mode(mode);
        self.query_mode = mode;
        out
    }

    /// A click on the entry with the full path `item_id`. See
    /// [`KeyTreeView::select_item`].
    pub fn select_item(&mut self, server: &mut ZedisServerState, item_id: String, is_folder: bool) -> (out:
        Outcome)
        requires
            old(self).wf(),
        ensures
            final(self).wf(),
            final(self)@ == old(self)@.select_item(old(server)@, item_id@, is_folder).0,
            final(server)@ == old(self)@.select_item(old(server)@, item_id@, is_folder).1,
            out@ == old(self)@.select_item(old(server)@, item_id@, is_folder).2,
    {
        if is_folder {
            if members_contains(&self.expanded_items, item_id.as_str()) {
                members_remove(&mut self.expanded_items, item_id.as_str());
                Outcome::nothing()
            } else {
                let mut prefix = item_id.clone();
                prefix.append(":");
                proof {
                    reveal_strlit(":");
                    assert(prefix@ =~= folder_prefix(item_id@));
                }
                members_insert(&mut self.expanded_items, item_id);
                server.scan_prefix(prefix)
            }
        } else {
            let selected = match &server.key {
                Some(key) => *key == item_id,
                None => false,
            };
            if selected {
                Outcome::nothing()
            } else {
                server.select_key(item_id)
            }
        }
    }

    /// What is shown in place of the tree. See
    /// [`KeyTreeView::tree_status`].
    pub fn tree_status(&self, server: &ZedisServerState) -> (r: TreeStatus)
        ensures
            r@ == self@.tree_status(server@),
    {
        if server.scaning() {
            return TreeStatus::Hidden;
        }
        if !self.is_empty && self.error.is_none() {
            return TreeStatus::Hidden;
        }
        let exact = self.query_mode == QueryMode::Exact;
        if exact {
            match server.value() {
                Some(v) => {
                    if v.is_expired() {
                        TreeStatus::KeyNotExists
                    } else {
                        TreeStatus::Blank
                    }
                },
                None => TreeStatus::Blank,
            }
        } else {
            match &self.error {
                Some(text) => {
                    if text.as_str().is_empty() {
                        TreeStatus::Blank
                    } else {
                        TreeStatus::Error(text.clone())
                    }
                },
                None => TreeStatus::NoKeysFound,
            }
        }
    }
}

/// After it was brought up to the session, the view shows the keys of the
/// session, all of them and no others: this holds where the tree that was
/// shown before was built from the first keys of the session, as it is
/// whenever the view was brought up to the same session before and the session
/// adds its keys at the end.
pub proof fn lemma_update_shows_the_keys(view: KeyTreeView, server: ServerView)
    requires
        view.follows(server) ==> view.keys == key_set(server.keys.take(view.merged as int)),
    ensures
        view.update_key_tree(server).0.keys == key_set(server.keys),
        view.update_key_tree(server).0.follows(server),
        view.update_key_tree(server).0.merged == server.keys.len(),
{
    let all = server.keys;
    let n = view.merged as int;
    if view.follows(server) {
        assert(all.take(n) + all.skip(n) =~= all);
        vstd::seq_lib::seq_to_set_distributes_over_add(all.take(n), all.skip(n));
        if n == all.len() {
            assert(all.take(n) =~= all);
        }
    }
}

} // verus!
