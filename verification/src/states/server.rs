//! One store session: what is being scanned, which key is selected and
//! what is cached of its value.
//!
//! A command changes the session and says, in its [`Outcome`], what to ask
//! of the store. The answer goes to the `apply_` function of the same name
//! together with the stamp that the command handed out. An answer whose
//! stamp has been superseded changes nothing.

pub mod answer;
pub mod event;
pub mod hash;
pub mod task;
pub mod value;

use vstd::prelude::*;
use vstd::string::StringExecFns;

use crate::error::{Error, ErrorView};
use crate::helpers::key_tree::{build_key_tree, display_of, entries_of, in_order, key_set, TreeItem};
use crate::states::server::event::{EventView, NotificationAction, NotificationView, ServerEvent};
use crate::states::server::task::{ServerTask, TaskDispatcher, TaskRecord};
use crate::states::server::value::{
    opt_text, opt_value, KeyType, RedisValue, RedisValueStatus, ValueView,
};

verus! {

/// How the keys to show are looked for.
#[derive(Debug, Clone, Copy, PartialEq, Eq, Structural)]
pub enum QueryMode {
    /// Every key is scanned; a keyword keeps the keys that contain it.
    All,
    /// The keys that begin with the keyword are scanned.
    Prefix,
    /// The keyword is the key: it is looked up, and nothing is scanned.
    Exact,
}

/// A call to the store, as plain values.
#[derive(Debug, Clone, PartialEq, Eq)]
pub enum StoreRequest {
    /// One page of the keys that match `pattern`, from `cursor` on.
    ScanKeys { cursor: u64, pattern: String, count: usize },
    /// The keys that match `pattern`, all of them.
    ScanPrefix { pattern: String, count: usize },
    /// Whether `key` exists, and its value.
    Fetch { key: String },
    /// One page of the fields of the hash `key` that match `pattern`, from
    /// `cursor` on.
    HashScan { key: String, cursor: u64, pattern: String, count: usize },
    /// Set `field` of the hash `key` to `value`.
    HashSet { key: String, field: String, value: String },
    /// Remove `field` from the hash `key`.
    HashDel { key: String, field: String },
}

/// The mathematical value of a [`StoreRequest`].
pub ghost enum RequestView {
    ScanKeys { cursor: u64, pattern: Seq<char>, count: usize },
    ScanPrefix { pattern: Seq<char>, count: usize },
    Fetch { key: Seq<char> },
    HashScan { key: Seq<char>, cursor: u64, pattern: Seq<char>, count: usize },
    HashSet { key: Seq<char>, field: Seq<char>, value: Seq<char> },
    HashDel { key: Seq<char>, field: Seq<char> },
}

impl View for StoreRequest {
    type V = RequestView;

    open spec fn view(&self) -> RequestView {
        match self {
            StoreRequest::ScanKeys { cursor, pattern, count } => RequestView::ScanKeys {
                cursor: *cursor,
                pattern: pattern@,
                count: *count,
            },
            StoreRequest::ScanPrefix { pattern, count } => RequestView::ScanPrefix {
                pattern: pattern@,
                count: *count,
            },
            StoreRequest::Fetch { key } => RequestView::Fetch { key: key@ },
            StoreRequest::HashScan { key, cursor, pattern, count } => RequestView::HashScan {
                key: key@,
                cursor: *cursor,
                pattern: pattern@,
                count: *count,
            },
            StoreRequest::HashSet { key, field, value } => RequestView::HashSet {
                key: key@,
                field: field@,
                value: value@,
            },
            StoreRequest::HashDel { key, field } => RequestView::HashDel {
                key: key@,
                field: field@,
            },
        }
    }
}

/// A task to run in the background: the call to make, the stamp to hand
/// back with its answer, and the generation of the key tree that it was
/// submitted in.
#[derive(Debug, Clone, PartialEq, Eq)]
pub struct Dispatch {
    pub record: TaskRecord,
    pub generation: u64,
    pub request: StoreRequest,
}

/// The mathematical value of a [`Dispatch`].
pub ghost struct DispatchView {
    pub record: TaskRecord,
    pub generation: u64,
    pub request: RequestView,
}

impl View for Dispatch {
    type V = DispatchView;

    open spec fn view(&self) -> DispatchView {
        DispatchView { record: self.record, generation: self.generation, request: self.request@ }
    }
}

/// What a command or an applied answer asks of the caller: a task to run,
/// events to pass on to the observers, and whether the observers should
/// read the session again.
#[derive(Debug, Clone, PartialEq, Eq)]
pub struct Outcome {
    pub dispatch: Option<Dispatch>,
    pub events: Vec<ServerEvent>,
    pub notify: bool,
}

/// The mathematical value of an [`Outcome`].
#[verifier::ext_equal]
pub ghost struct OutcomeView {
    pub dispatch: Option<DispatchView>,
    pub events: Seq<EventView>,
    pub notify: bool,
}

impl OutcomeView {
    /// Nothing to do.
    pub open spec fn nothing() -> OutcomeView {
        OutcomeView { dispatch: None, events: Seq::empty(), notify: false }
    }

    /// Only the observers are to read the session again.
    pub open spec fn changed() -> OutcomeView {
        OutcomeView { dispatch: None, events: Seq::empty(), notify: true }
    }

    /// Events to pass on, after which the observers read the session again.
    pub open spec fn told(events: Seq<EventView>) -> OutcomeView {
        OutcomeView { dispatch: None, events, notify: true }
    }

    /// A task to run, with the events that announce it.
    pub open spec fn run(
        record: TaskRecord,
        generation: u64,
        request: RequestView,
        events: Seq<EventView>,
    ) -> OutcomeView {
        OutcomeView {
            dispatch: Some(DispatchView { record, generation, request }),
            events,
            notify: true,
        }
    }
}

impl View for Outcome {
    type V = OutcomeView;

    open spec fn view(&self) -> OutcomeView {
        OutcomeView {
            dispatch: match self.dispatch {
                Some(d) => Some(d@),
                None => None,
            },
            events: self.events.deep_view(),
            notify: self.notify,
        }
    }
}

impl Outcome {
    /// Nothing to do.
    pub fn nothing() -> (r: Outcome)
        ensures
            r@ == OutcomeView::nothing(),
    {
        Outcome { dispatch: None, events: Vec::new(), notify: false }
    }

    /// Only the observers are to read the session again.
    pub fn changed() -> (r: Outcome)
        ensures
            r@ == OutcomeView::changed(),
    {
        Outcome { dispatch: None, events: Vec::new(), notify: true }
    }

    /// Events to pass on, after which the observers read the session again.
    pub fn told(events: Vec<ServerEvent>) -> (r: Outcome)
        ensures
            r@ == OutcomeView::told(events.deep_view()),
    {
        Outcome { dispatch: None, events, notify: true }
    }

    /// A task to run, with the events that announce it.
    pub fn run(
        record: TaskRecord,
        generation: u64,
        request: StoreRequest,
        events: Vec<ServerEvent>,
    ) -> (r: Outcome)
        ensures
            r@ == OutcomeView::run(record, generation, request@, events.deep_view()),
    {
        Outcome { dispatch: Some(Dispatch { record, generation, request }), events, notify: true }
    }
}

/// The number of entries asked for in one page: more under a keyword,
/// where most of what is walked over does not match.
pub open spec fn page_size(keyword: Option<Seq<char>>) -> usize {
    if keyword is Some {
        1000
    } else {
        100
    }
}

/// The character that stands for any run of characters in a pattern.
pub const WILDCARD: char = '*';

/// The pattern for the names that contain `keyword`: every name where
/// there is no keyword.
pub open spec fn contains_pattern(keyword: Option<Seq<char>>) -> Seq<char> {
    match keyword {
        Some(k) => seq![WILDCARD] + k + seq![WILDCARD],
        None => seq![WILDCARD],
    }
}

/// The pattern for the names that begin with `prefix`.
pub open spec fn prefix_pattern(prefix: Seq<char>) -> Seq<char> {
    prefix.push(WILDCARD)
}

/// The pattern of a scan of the keys under `mode`.
pub open spec fn scan_pattern(mode: QueryMode, keyword: Option<Seq<char>>) -> Seq<char> {
    match (mode, keyword) {
        (QueryMode::Prefix, Some(k)) => prefix_pattern(k),
        _ => contains_pattern(keyword),
    }
}

/// The token of the key tree that follows `id`: always another one.
pub open spec fn next_generation(id: u64) -> u64 {
    if id == u64::MAX {
        0
    } else {
        (id + 1) as u64
    }
}

/// The number of entries asked for in one page.
pub fn page_size_for(keyword: &Option<String>) -> (r: usize)
    ensures
        r == page_size(opt_text(*keyword)),
{
    if keyword.is_some() {
        1000
    } else {
        100
    }
}

/// The pattern for the names that contain `keyword`.
pub fn contains_pattern_for(keyword: &Option<String>) -> (r: String)
    ensures
        r@ == contains_pattern(opt_text(*keyword)),
{
    proof {
        reveal_strlit("*");
    }
    match keyword {
        Some(k) => {
            let mut p = String::from_str("*");
            p.append(k.as_str());
            p.append("*");
            assert(p@ =~= seq![WILDCARD] + k@ + seq![WILDCARD]);
            p
        },
        None => {
            let p = String::from_str("*");
            assert(p@ =~= seq![WILDCARD]);
            p
        },
    }
}

/// The pattern for the names that begin with `prefix`.
pub fn prefix_pattern_for(prefix: &str) -> (r: String)
    ensures
        r@ == prefix_pattern(prefix@),
{
    let mut p = String::from_str(prefix);
    p.append("*");
    proof {
        reveal_strlit("*");
        assert(p@ =~= prefix@.push(WILDCARD));
    }
    p
}

/// The pattern of a scan of the keys under `mode`.
pub fn scan_pattern_for(mode: QueryMode, keyword: &Option<String>) -> (r: String)
    ensures
        r@ == scan_pattern(mode, opt_text(*keyword)),
{
    match (mode, keyword) {
        (QueryMode::Prefix, Some(k)) => prefix_pattern_for(k.as_str()),
        _ => contains_pattern_for(keyword),
    }
}

/// The state of one session.
pub struct ZedisServerState {
    /// The server that the session talks to.
    pub current_server: String,
    /// How the keys are looked for.
    pub query_mode: QueryMode,
    /// The keyword of the scan, if there is one.
    pub keyword: Option<String>,
    /// Where the next page of the scan starts; 0 at the start.
    pub cursor: u64,
    /// Whether the store has reported the end of the scan.
    pub done: bool,
    /// Whether a page of the scan is in flight.
    pub scaning: bool,
    /// The keys found so far, page after page.
    pub keys: Vec<String>,
    /// The generation of the key tree: another token with every new scan.
    pub key_tree_id: u64,
    /// The selected key.
    pub key: Option<String>,
    /// What is cached of the selected key's value.
    pub value: Option<RedisValue>,
    /// The epochs of the background tasks.
    pub tasks: TaskDispatcher,
}

/// The mathematical value of a [`ZedisServerState`].
#[verifier::ext_equal]
pub ghost struct ServerView {
    pub server: Seq<char>,
    pub query_mode: QueryMode,
    pub keyword: Option<Seq<char>>,
    pub cursor: u64,
    pub done: bool,
    pub scaning: bool,
    pub keys: Seq<Seq<char>>,
    pub key_tree_id: u64,
    pub key: Option<Seq<char>>,
    pub value: Option<ValueView>,
    pub tasks: TaskDispatcher,
}

impl View for ZedisServerState {
    type V = ServerView;

    open spec fn view(&self) -> ServerView {
        ServerView {
            server: self.current_server@,
            query_mode: self.query_mode,
            keyword: opt_text(self.keyword),
            cursor: self.cursor,
            done: self.done,
            scaning: self.scaning,
            keys: self.keys.deep_view(),
            key_tree_id: self.key_tree_id,
            key: opt_text(self.key),
            value: opt_value(self.value),
            tasks: self.tasks,
        }
    }
}

/// The answer of the store to the request for a page of keys.
pub open spec fn keys_page(r: Result<(u64, Vec<String>), Error>) -> Result<
    (u64, Seq<Seq<char>>),
    ErrorView,
> {
    match r {
        Ok((cursor, page)) => Ok((cursor, page.deep_view())),
        Err(e) => Err(e@),
    }
}

/// The answer of the store to the request for the keys below a folder.
pub open spec fn keys_found(r: Result<Vec<String>, Error>) -> Result<Seq<Seq<char>>, ErrorView> {
    match r {
        Ok(found) => Ok(found.deep_view()),
        Err(e) => Err(e@),
    }
}

/// The answer of the store to the request for a value.
pub open spec fn value_fetched(r: Result<RedisValue, Error>) -> Result<ValueView, ErrorView> {
    match r {
        Ok(v) => Ok(v@),
        Err(e) => Err(e@),
    }
}

/// The events that report the failure `e` to the user.
pub open spec fn failure(e: ErrorView) -> Seq<EventView> {
    seq![EventView::Notification(NotificationView::error(e.message))]
}

impl ServerView {
    /// A session with `server` that has done nothing yet.
    pub open spec fn fresh(server: Seq<char>) -> ServerView {
        ServerView {
            server,
            query_mode: QueryMode::All,
            keyword: None,
            cursor: 0,
            done: false,
            scaning: false,
            keys: Seq::empty(),
            key_tree_id: 0,
            key: None,
            value: None,
            tasks: TaskDispatcher::unused(),
        }
    }

    /// Whether the answer stamped `record`, given to a task of `kind`,
    /// may still be applied.
    pub open spec fn takes(self, record: TaskRecord, kind: ServerTask) -> bool {
        record.kind == kind && self.tasks.accepts(record)
    }

    /// Whether the answer to a scan stamped `record` and submitted in
    /// `generation` may still be applied: its stamp is the latest and the
    /// key tree is still of that generation.
    pub open spec fn takes_scan(self, record: TaskRecord, kind: ServerTask, generation: u64) -> bool {
        self.takes(record, kind) && generation == self.key_tree_id
    }

    /// The session talks to `server` from now on: where that is another
    /// server, nothing of the old one is kept but the epochs, and the key
    /// tree is of a new generation.
    pub open spec fn select_server(self, server: Seq<char>) -> ServerView {
        if self.server == server {
            self
        } else {
            ServerView {
                server,
                keyword: None,
                cursor: 0,
                done: false,
                scaning: false,
                keys: Seq::empty(),
                key_tree_id: next_generation(self.key_tree_id),
                key: None,
                value: None,
                ..self
            }
        }
    }

    /// The start of a new scan: the cursor is back at 0, the keys found so
    /// far are dropped, and the key tree is of a new generation.
    pub open spec fn restarted(self) -> ServerView {
        ServerView {
            cursor: 0,
            done: false,
            scaning: false,
            keys: Seq::empty(),
            key_tree_id: next_generation(self.key_tree_id),
            ..self
        }
    }

    /// Asks for the page of keys at the cursor. Nothing happens under
    /// [`QueryMode::Exact`], after the end of the scan, or where the counter
    /// of the task is used up.
    pub open spec fn scan_page(self) -> (ServerView, OutcomeView) {
        if self.query_mode != QueryMode::Exact && !self.done && self.tasks.can_submit(
            ServerTask::ScanKeys,
        ) {
            (
                ServerView {
                    scaning: true,
                    tasks: self.tasks.submitted(ServerTask::ScanKeys),
                    ..self
                },
                OutcomeView::run(
                    self.tasks.next_record(ServerTask::ScanKeys),
                    self.key_tree_id,
                    RequestView::ScanKeys {
                        cursor: self.cursor,
                        pattern: scan_pattern(self.query_mode, self.keyword),
                        count: page_size(self.keyword),
                    },
                    Seq::empty(),
                ),
            )
        } else {
            (self, OutcomeView::nothing())
        }
    }

    /// Looks for the keys anew: a scan from the start, or under
    /// [`QueryMode::Exact`] the lookup of the keyword as a key. Either way
    /// the observers have something to read again.
    pub open spec fn look(self) -> (ServerView, OutcomeView) {
        let s = self.restarted();
        let (t, out) = if s.query_mode == QueryMode::Exact {
            match s.keyword {
                Some(k) => s.select_key(k),
                None => (s, OutcomeView::nothing()),
            }
        } else {
            s.scan_page()
        };
        (t, OutcomeView { notify: true, ..out })
    }

    /// Changes how the keys are looked for, and looks for them anew.
    /// The mode that is already set changes nothing.
    pub open spec fn set_query_mode(self, mode: QueryMode) -> (ServerView, OutcomeView) {
        if mode == self.query_mode {
            (self, OutcomeView::nothing())
        } else {
            (ServerView { query_mode: mode, ..self }).look()
        }
    }

    /// Looks for the keys under `keyword`; the empty keyword is none.
    pub open spec fn handle_filter(self, keyword: Seq<char>) -> (ServerView, OutcomeView) {
        (ServerView {
            keyword: if keyword.len() == 0 {
                None
            } else {
                Some(keyword)
            },
            ..self
        }).look()
    }

    /// Looks for the keys anew under the mode and keyword that are set.
    pub open spec fn refresh(self) -> (ServerView, OutcomeView) {
        self.look()
    }

    /// Asks for the next page of keys, unless a page is in flight or the
    /// scan is over.
    pub open spec fn load_more_keys(self) -> (ServerView, OutcomeView) {
        if self.scaning || self.done || self.query_mode == QueryMode::Exact {
            (self, OutcomeView::nothing())
        } else {
            self.scan_page()
        }
    }

    /// Takes in the answer to a page request: the page is appended to the
    /// keys, the cursor is the one that the store returned, and cursor 0
    /// ends the scan. A failure is reported and leaves the keys alone.
    /// An answer that may no longer be applied changes nothing.
    pub open spec fn apply_scan_keys(
        self,
        record: TaskRecord,
        generation: u64,
        result: Result<(u64, Seq<Seq<char>>), ErrorView>,
    ) -> (ServerView, OutcomeView) {
        if !self.takes_scan(record, ServerTask::ScanKeys, generation) {
            (self, OutcomeView::nothing())
        } else {
            match result {
                Ok((next, page)) => (
                    ServerView {
                        cursor: next,
                        done: next == 0,
                        scaning: false,
                        keys: self.keys + page,
                        ..self
                    },
                    OutcomeView::changed(),
                ),
                Err(e) => (ServerView { scaning: false, ..self }, OutcomeView::told(failure(e))),
            }
        }
    }

    /// Asks for the keys below a folder, whose names begin with `prefix`.
    /// The scan that is under way, and the generation of the key tree, stay
    /// as they are.
    pub open spec fn scan_prefix(self, prefix: Seq<char>) -> (ServerView, OutcomeView) {
        if self.tasks.can_submit(ServerTask::ScanPrefix) {
            (
                ServerView { tasks: self.tasks.submitted(ServerTask::ScanPrefix), ..self },
                OutcomeView::run(
                    self.tasks.next_record(ServerTask::ScanPrefix),
                    self.key_tree_id,
                    RequestView::ScanPrefix {
                        pattern: prefix_pattern(prefix),
                        count: page_size(Some(prefix)),
                    },
                    Seq::empty(),
                ),
            )
        } else {
            (self, OutcomeView::nothing())
        }
    }

    /// Takes in the keys found below a folder: they are added to the keys,
    /// and nothing else changes. A failure is reported. An answer that
    /// may no longer be applied, because a later one was asked for or the key
    /// tree is of another generation by now, changes nothing.
    pub open spec fn apply_scan_prefix(
        self,
        record: TaskRecord,
        generation: u64,
        result: Result<Seq<Seq<char>>, ErrorView>,
    ) -> (ServerView, OutcomeView) {
        if !self.takes_scan(record, ServerTask::ScanPrefix, generation) {
            (self, OutcomeView::nothing())
        } else {
            match result {
                Ok(found) => (ServerView { keys: self.keys + found, ..self }, OutcomeView::changed()),
                Err(e) => (self, OutcomeView::told(failure(e))),
            }
        }
    }

    /// Selects `key`: its cache entry is made, and its value asked for.
    pub open spec fn select_key(self, key: Seq<char>) -> (ServerView, OutcomeView) {
        if self.tasks.can_submit(ServerTask::SelectKey) {
            (
                ServerView {
                    key: Some(key),
                    value: Some(ValueView::loading()),
                    tasks: self.tasks.submitted(ServerTask::SelectKey),
                    ..self
                },
                OutcomeView::run(
                    self.tasks.next_record(ServerTask::SelectKey),
                    self.key_tree_id,
                    RequestView::Fetch { key },
                    Seq::empty(),
                ),
            )
        } else {
            (self, OutcomeView::nothing())
        }
    }

    /// No key is selected any more: the cache entry is dropped.
    pub open spec fn deselect_key(self) -> (ServerView, OutcomeView) {
        if self.key is None && self.value is None {
            (self, OutcomeView::nothing())
        } else {
            (ServerView { key: None, value: None, ..self }, OutcomeView::changed())
        }
    }

    /// Takes in the fetched value of the selected key: it becomes the cache
    /// entry, at rest. A failure is reported and leaves the entry as it is,
    /// at rest. Where the entry was dropped in the meantime, none is made.
    /// An answer that may no longer be applied changes nothing.
    pub open spec fn apply_select_key(
        self,
        record: TaskRecord,
        result: Result<ValueView, ErrorView>,
    ) -> (ServerView, OutcomeView) {
        if !self.takes(record, ServerTask::SelectKey) {
            (self, OutcomeView::nothing())
        } else {
            let value = match self.value {
                Some(old) => Some(
                    match result {
                        Ok(v) => v,
                        Err(_) => old,
                    }.with_status(RedisValueStatus::Idle),
                ),
                None => None,
            };
            let out = match result {
                Ok(_) => OutcomeView::changed(),
                Err(e) => OutcomeView::told(failure(e)),
            };
            (ServerView { value, ..self }, out)
        }
    }
}

/// The events that report the failure `e` to the user.
pub fn failure_events(e: Error) -> (r: Vec<ServerEvent>)
    ensures
        r.deep_view() == failure(e@),
{
    vec![ServerEvent::Notification(NotificationAction::new_error(e.message))]
}

impl ZedisServerState {
    /// A session that has no server yet and has done nothing.
    pub fn new() -> (r: ZedisServerState)
        ensures
            r@ == ServerView::fresh(Seq::empty()),
    {
        ZedisServerState {
            current_server: String::new(),
            query_mode: QueryMode::All,
            keyword: None,
            cursor: 0,
            done: false,
            scaning: false,
            keys: Vec::new(),
            key_tree_id: 0,
            key: None,
            value: None,
            tasks: TaskDispatcher::new(),
        }
    }

    /// The server that the session talks to.
    pub fn server_id(&self) -> (r: &str)
        ensures
            r@ == self@.server,
    {
        self.current_server.as_str()
    }

    /// How the keys are looked for.
    pub fn query_mode(&self) -> (r: QueryMode)
        ensures
            r == self@.query_mode,
    {
        self.query_mode
    }

    /// Whether a page of the scan is in flight.
    pub fn scaning(&self) -> (r: bool)
        ensures
            r == self@.scaning,
    {
        self.scaning
    }

    /// The generation of the key tree.
    pub fn key_tree_id(&self) -> (r: u64)
        ensures
            r == self@.key_tree_id,
    {
        self.key_tree_id
    }

    /// The number of keys found so far.
    pub fn scan_count(&self) -> (r: usize)
        ensures
            r == self@.keys.len(),
    {
        self.keys.len()
    }

    /// The selected key.
    pub fn key(&self) -> (r: Option<&String>)
        ensures
            match r {
                Some(k) => self@.key == Some(k@),
                None => self@.key is None,
            },
    {
        self.key.as_ref()
    }

    /// What is cached of the selected key's value.
    pub fn value(&self) -> (r: Option<&RedisValue>)
        ensures
            match r {
                Some(v) => self@.value == Some(v@),
                None => self@.value is None,
            },
    {
        self.value.as_ref()
    }

    /// The kind of the selected key, as far as it is known.
    pub fn key_type(&self) -> (r: Option<KeyType>)
        ensures
            r == (match self@.value {
                Some(v) => Some(v.key_type),
                None => None,
            }),
    {
        match &self.value {
            Some(v) => Some(v.key_type),
            None => None,
        }
    }

    /// What is going on with the cached value.
    pub fn value_status(&self) -> (r: Option<RedisValueStatus>)
        ensures
            r == (match self@.value {
                Some(v) => Some(v.status),
                None => None,
            }),
    {
        match &self.value {
            Some(v) => Some(v.status),
            None => None,
        }
    }

    /// The tree of the keys found so far, as it is shown.
    pub fn key_tree(&self) -> (r: Vec<TreeItem>)
        ensures
            display_of(r@, key_set(self@.keys)),
            in_order(entries_of(r@)),
    {
        build_key_tree(&self.keys)
    }

    /// Whether the answer stamped `record`, given to a task of `kind`,
    /// may still be applied.
    pub fn takes(&self, record: TaskRecord, kind: ServerTask) -> (r: bool)
        ensures
            r == self@.takes(record, kind),
    {
        record.kind == kind && self.tasks.is_current(record)
    }

    /// The session talks to `server` from now on. Returns whether that is
    /// another server than before: then nothing of the old one is kept but
    /// the epochs, and the key tree is of a new generation.
    pub fn select_server(&mut self, server: String) -> (changed: bool)
        ensures
            final(self)@ == old(self)@.select_server(server@),
            changed == (old(self)@.server != server@),
    {
        if self.current_server == server {
            false
        } else {
            self.current_server = server;
            self.keyword = None;
            self.cursor = 0;
            self.done = false;
            self.scaning = false;
            self.keys = Vec::new();
            self.bump_generation();
            self.key = None;
            self.value = None;
            true
        }
    }

    /// Moves the key tree on to its next generation.
    fn bump_generation(&mut self)
        ensures
            *final(self) == (ZedisServerState {
                key_tree_id: next_generation(old(self).key_tree_id),
                ..*old(self)
            }),
    {
        self.key_tree_id = if self.key_tree_id == u64::MAX {
            0
        } else {
            self.key_tree_id + 1
        };
    }

    /// Starts a new scan: the cursor is back at 0, the keys found so far
    /// are dropped, and the key tree is of a new generation.
    fn restart(&mut self)
        ensures
            final(self)@ == old(self)@.restarted(),
    {
        self.cursor = 0;
        self.done = false;
        self.scaning = false;
        self.keys = Vec::new();
        self.bump_generation();
    }

    /// Asks for the page of keys at the cursor.
    fn scan_page(&mut self) -> (out: Outcome)
        ensures
            final(self)@ == old(self)@.scan_page().0,
            out@ == old(self)@.scan_page().1,
    {
        let exact = self.query_mode == QueryMode::Exact;
        if exact || self.done {
            return Outcome::nothing();
        }
        match self.tasks.submit(ServerTask::ScanKeys) {
            Some(record) => {
                self.scaning = true;
                let request = StoreRequest::ScanKeys {
                    cursor: self.cursor,
                    pattern: scan_pattern_for(self.query_mode, &self.keyword),
                    count: page_size_for(&self.keyword),
                };
                Outcome::run(record, self.key_tree_id, request, Vec::new())
            },
            None => Outcome::nothing(),
        }
    }

    /// Looks for the keys anew.
    fn look(&mut self) -> (out: Outcome)
        ensures
            final(self)@ == old(self)@.look().0,
            out@ == old(self)@.look().1,
    {
        self.restart();
        let exact = self.query_mode == QueryMode::Exact;
        let mut out = if exact {
            let keyword = match &self.keyword {
                Some(k) => Some(k.clone()),
                None => None,
            };
            match keyword {
                Some(k) => self.select_key(k),
                None => Outcome::nothing(),
            }
        } else {
            self.scan_page()
        };
        out.notify = true;
        out
    }

    /// Changes how the keys are looked for, and looks for them anew: by a
    /// scan from the start under a new generation of the key tree, or under
    /// [`QueryMode::Exact`] by the lookup of the keyword as a key. The
    /// mode that is already set changes nothing.
    pub fn set_query_mode(&mut self, mode: QueryMode) -> (out: Outcome)
        ensures
            final(self)@ == old(self)@.set_query_mode(mode).0,
            out@ == old(self)@.set_query_mode(mode).1,
    {
        if mode == self.query_mode {
            Outcome::nothing()
        } else {
            self.query_mode = mode;
            self.look()
        }
    }

    /// Looks for the keys under `keyword`, from the start and under a new
    /// generation of the key tree; the empty keyword is none.
    pub fn handle_filter(&mut self, keyword: String) -> (out: Outcome)
        ensures
            final(self)@ == old(self)@.handle_filter(keyword@).0,
            out@ == old(self)@.handle_filter(keyword@).1,
    {
        if keyword.as_str().is_empty() {
            self.keyword = None;
        } else {
            self.keyword = Some(keyword);
        }
        self.look()
    }

    /// Looks for the keys anew under the mode and keyword that are set.
    pub fn refresh(&mut self) -> (out: Outcome)
        ensures
            final(self)@ == old(self)@.refresh().0,
            out@ == old(self)@.refresh().1,
    {
        self.look()
    }

    /// Asks for the next page of keys. Nothing happens while a page is in
    /// flight, after the end of the scan, or under [`QueryMode::Exact`].
    pub fn load_more_keys(&mut self) -> (out: Outcome)
        ensures
            final(self)@ == old(self)@.load_more_keys().0,
            out@ == old(self)@.load_more_keys().1,
    {
        let exact = self.query_mode == QueryMode::Exact;
        if self.scaning || self.done || exact {
            Outcome::nothing()
        } else {
            self.scan_page()
        }
    }

    /// Takes in the answer to a page request. See
    /// [`ServerView::apply_scan_keys`].
    pub fn apply_scan_keys(
        &mut self,
        record: TaskRecord,
        generation: u64,
        result: Result<(u64, Vec<String>), Error>,
    ) -> (out: Outcome)
        ensures
            final(self)@ == old(self)@.apply_scan_keys(record, generation, keys_page(result)).0,
            out@ == old(self)@.apply_scan_keys(record, generation, keys_page(result)).1,
    {
        if !self.takes(record, ServerTask::ScanKeys) || generation != self.key_tree_id {
            return Outcome::nothing();
        }
        self.scaning = false;
        match result {
            Ok((next, page)) => {
                let mut page = page;
                self.cursor = next;
                self.done = next == 0;
                self.keys.append(&mut page);
                Outcome::changed()
            },
            Err(e) => Outcome::told(failure_events(e)),
        }
    }

    /// Asks for the keys below a folder, whose names begin with `prefix`.
    /// See [`ServerView::scan_prefix`].
    pub fn scan_prefix(&mut self, prefix: String) -> (out: Outcome)
        ensures
            final(self)@ == old(self)@.scan_prefix(prefix@).0,
            out@ == old(self)@.scan_prefix(prefix@).1,
    {
        match self.tasks.submit(ServerTask::ScanPrefix) {
            Some(record) => {
                let request = StoreRequest::ScanPrefix {
                    pattern: prefix_pattern_for(prefix.as_str()),
                    count: 1000,
                };
                Outcome::run(record, self.key_tree_id, request, Vec::new())
            },
            None => Outcome::nothing(),
        }
    }

    /// Takes in the keys found below a folder. See
    /// [`ServerView::apply_scan_prefix`].
    pub fn apply_scan_prefix(
        &mut self,
        record: TaskRecord,
        generation: u64,
        result: Result<Vec<String>, Error>,
    ) -> (out: Outcome)
        ensures
            final(self)@ == old(self)@.apply_scan_prefix(record, generation, keys_found(result)).0,
            out@ == old(self)@.apply_scan_prefix(record, generation, keys_found(result)).1,
    {
        if !self.takes(record, ServerTask::ScanPrefix) || generation != self.key_tree_id {
            return Outcome::nothing();
        }
        match result {
            Ok(found) => {
                let mut found = found;
                self.keys.append(&mut found);
                Outcome::changed()
            },
            Err(e) => Outcome::told(failure_events(e)),
        }
    }

    /// Selects `key`: its cache entry is made, with the fetch in flight,
    /// and its value asked for. Nothing happens only where the counter of
    /// the task is used up.
    pub fn select_key(&mut self, key: String) -> (out: Outcome)
        ensures
            final(self)@ == old(self)@.select_key(key@).0,
            out@ == old(self)@.select_key(key@).1,
    {
        match self.tasks.submit(ServerTask::SelectKey) {
            Some(record) => {
                let request = StoreRequest::Fetch { key: key.clone() };
                self.key = Some(key);
                self.value = Some(RedisValue::loading());
                Outcome::run(record, self.key_tree_id, request, Vec::new())
            },
            None => Outcome::nothing(),
        }
    }

    /// No key is selected any more: the cache entry is dropped.
    pub fn deselect_key(&mut self) -> (out: Outcome)
        ensures
            final(self)@ == old(self)@.deselect_key().0,
            out@ == old(self)@.deselect_key().1,
    {
        if self.key.is_none() && self.value.is_none() {
            Outcome::nothing()
        } else {
            self.key = None;
            self.value = None;
            Outcome::changed()
        }
    }

    /// Takes in the fetched value of the selected key. See
    /// [`ServerView::apply_select_key`].
    pub fn apply_select_key(&mut self, record: TaskRecord, result: Result<RedisValue, Error>) -> (out:
        Outcome)
        ensures
            final(self)@ == old(self)@.apply_select_key(record, value_fetched(result)).0,
            out@ == old(self)@.apply_select_key(record, value_fetched(result)).1,
    {
        if !self.takes(record, ServerTask::SelectKey) {
            return Outcome::nothing();
        }
        match result {
            Ok(v) => {
                if self.value.is_some() {
                    let mut v = v;
                    v.status = RedisValueStatus::Idle;
                    self.value = Some(v);
                }
                Outcome::changed()
            },
            Err(e) => {
                match &mut self.value {
                    Some(old) => {
                        old.status = RedisValueStatus::Idle;
                    },
                    None => {},
                }
                Outcome::told(failure_events(e))
            },
        }
    }
}

/// An answer whose stamp is not the latest of its kind changes nothing
/// and asks for nothing, whatever it holds: this is so of the answers to the
/// scans and to the fetch of a value.
pub proof fn lemma_superseded_answer_changes_nothing(s: ServerView, record: TaskRecord)
    requires
        !s.tasks.accepts(record),
    ensures
        forall|generation: u64, result: Result<(u64, Seq<Seq<char>>), ErrorView>|
            #[trigger] s.apply_scan_keys(record, generation, result) == (s, OutcomeView::nothing()),
        forall|generation: u64, result: Result<Seq<Seq<char>>, ErrorView>|
            #[trigger] s.apply_scan_prefix(record, generation, result) == (
                s,
                OutcomeView::nothing(),
            ),
        forall|result: Result<ValueView, ErrorView>| #[trigger]
            s.apply_select_key(record, result) == (s, OutcomeView::nothing()),
{
}

/// Of two new scans started one after the other, before either page has
/// come, only the second is still answered for: the page of the first
/// changes nothing whenever it comes, and the page of the second is taken
/// in.
pub proof fn lemma_later_scan_supersedes(
    s: ServerView,
    page: Result<(u64, Seq<Seq<char>>), ErrorView>,
)
    requires
        s.query_mode != QueryMode::Exact,
        s.tasks.epoch(ServerTask::ScanKeys) + 2 <= u64::MAX,
    ensures
        ({
            let (first, asked_first) = s.refresh();
            let (second, asked_second) = first.refresh();
            &&& asked_first.dispatch is Some
            &&& asked_second.dispatch is Some
            &&& second.apply_scan_keys(
                asked_first.dispatch->0.record,
                asked_first.dispatch->0.generation,
                page,
            ) == (second, OutcomeView::nothing())
            &&& second.takes_scan(
                asked_second.dispatch->0.record,
                ServerTask::ScanKeys,
                asked_second.dispatch->0.generation,
            )
            &&& second.key_tree_id != first.key_tree_id
            &&& second.keys == Seq::<Seq<char>>::empty()
            &&& second.cursor == 0
        }),
{
}

/// A new scan that follows a change of the mode runs under another
/// generation of the key tree, from cursor 0 and with no key found yet.
pub proof fn lemma_mode_change_restarts(s: ServerView, mode: QueryMode)
    requires
        mode != s.query_mode,
    ensures
        s.set_query_mode(mode).0.query_mode == mode,
        s.set_query_mode(mode).0.key_tree_id != s.key_tree_id,
        s.set_query_mode(mode).0.keys == Seq::<Seq<char>>::empty(),
        s.set_query_mode(mode).0.cursor == 0,
        !s.set_query_mode(mode).0.done,
        mode != QueryMode::Exact && s.tasks.can_submit(ServerTask::ScanKeys) ==> {
            let out = s.set_query_mode(mode).1;
            &&& out.dispatch is Some
            &&& out.dispatch->0.generation == s.set_query_mode(mode).0.key_tree_id
            &&& out.dispatch->0.request == (RequestView::ScanKeys {
                cursor: 0,
                pattern: scan_pattern(mode, s.keyword),
                count: page_size(s.keyword),
            })
        },
{
}

/// The keys that a run of pages holds, page after page.
pub open spec fn all_keys_of(pages: Seq<(u64, Seq<Seq<char>>)>) -> Seq<Seq<char>>
    decreases pages.len(),
{
    if pages.len() == 0 {
        Seq::empty()
    } else {
        all_keys_of(pages.drop_last()) + pages.last().1
    }
}

/// Whether the store ends the scan with the last of `pages` and with none
/// before it.
pub open spec fn scan_ends_with_last(pages: Seq<(u64, Seq<Seq<char>>)>) -> bool {
    &&& pages.len() > 0
    &&& pages.last().0 == 0
    &&& forall|i: int| 0 <= i < pages.len() - 1 ==> (#[trigger] pages[i]).0 != 0
}

impl ServerView {
    /// The session after one request for more keys and its answer `page`.
    pub open spec fn scan_one(self, page: (u64, Seq<Seq<char>>)) -> ServerView {
        let (asked, out) = self.load_more_keys();
        match out.dispatch {
            Some(d) => asked.apply_scan_keys(d.record, d.generation, Ok(page)).0,
            None => asked,
        }
    }

    /// The session after as many requests for more keys as `pages` has
    /// entries, each answered by the page of its turn.
    pub open spec fn scan_all(self, pages: Seq<(u64, Seq<Seq<char>>)>) -> ServerView
        decreases pages.len(),
    {
        if pages.len() == 0 {
            self
        } else {
            self.scan_all(pages.drop_last()).scan_one(pages.last())
        }
    }
}

/// What repeated requests for more keys lead to. Take a session that
/// scans, with no page in flight and its scan not over, room for as many
/// submissions as there are pages, and a store that ends the scan with the
/// last page and with none before it. Then after the last answer the scan is
/// over: the keys are those found before followed by the pages in order, the
/// cursor is 0, no page is in flight, the key tree is of the generation that
/// it was of, and one more request changes nothing and asks for nothing.
pub proof fn lemma_scan_ends(s: ServerView, pages: Seq<(u64, Seq<Seq<char>>)>)
    requires
        s.query_mode != QueryMode::Exact,
        !s.scaning,
        !s.done,
        s.tasks.epoch(ServerTask::ScanKeys) + pages.len() <= u64::MAX,
        scan_ends_with_last(pages),
    ensures
        ({
            let end = s.scan_all(pages);
            &&& end.keys == s.keys + all_keys_of(pages)
            &&& end.done
            &&& end.cursor == 0
            &&& !end.scaning
            &&& end.key_tree_id == s.key_tree_id
            &&& end.load_more_keys() == (end, OutcomeView::nothing())
        }),
{
    lemma_scanned_so_far(s, pages, pages.len() as int);
    assert(pages.take(pages.len() as int) =~= pages);
}

/// The state after the first `n` of the pages of a scan.
proof fn lemma_scanned_so_far(s: ServerView, pages: Seq<(u64, Seq<Seq<char>>)>, n: int)
    requires
        s.query_mode != QueryMode::Exact,
        !s.scaning,
        !s.done,
        s.tasks.epoch(ServerTask::ScanKeys) + pages.len() <= u64::MAX,
        scan_ends_with_last(pages),
        0 <= n <= pages.len(),
    ensures
        ({
            let at = s.scan_all(pages.take(n));
            &&& at.keys == s.keys + all_keys_of(pages.take(n))
            &&& at.done == (n == pages.len())
            &&& n > 0 ==> at.cursor == pages[n - 1].0
            &&& !at.scaning
            &&& at.query_mode == s.query_mode
            &&& at.key_tree_id == s.key_tree_id
            &&& at.tasks.epoch(ServerTask::ScanKeys) == s.tasks.epoch(ServerTask::ScanKeys) + n
        }),
    decreases n,
{
    if n > 0 {
        lemma_scanned_so_far(s, pages, n - 1);
        assert(pages.take(n).drop_last() =~= pages.take(n - 1));
    }
}

} // verus!
