//! The commands on a cached hash: add a field, remove a field, fetch one
//! more page of the fields, and enumerate anew under a keyword.

use vstd::prelude::*;

use crate::error::{Error, ErrorView};
use crate::states::server::event::{
    add_value_message, add_value_notification, add_value_title, EventView, NotificationView,
    ServerEvent,
};
use crate::states::server::task::{ServerTask, TaskRecord};
use crate::states::server::value::{
    named_otherwise, shared_add_fields, shared_append_page, shared_remove_field, HashView,
    RedisValue, RedisValueData, RedisValueStatus,
};
use crate::states::server::{
    contains_pattern, contains_pattern_for, failure, failure_events, page_size, page_size_for,
    Outcome, OutcomeView, RequestView, ServerView, StoreRequest, ZedisServerState,
};
use std::sync::Arc;

verus! {

/// What decoding `bytes` as UTF-8 gives where every malformed part is
/// replaced by U+FFFD.
pub uninterp spec fn utf8_lossy(bytes: Seq<u8>) -> Seq<char>;

/// The text of `bytes`, whatever they hold.
///
/// Trusted: this is `String::from_utf8_lossy` of std, followed by the copy
/// into an owned string. Its result depends on the bytes alone; the contract
/// gives that result a name and says nothing more of it.
#[verifier::external_body]
fn text_of(bytes: &Vec<u8>) -> (r: String)
    ensures
        r@ == utf8_lossy(bytes@),
{
    String::from_utf8_lossy(bytes).to_string()
}

/// The texts of a page of raw `(field, value)` pairs.
pub open spec fn decoded(raw: Seq<(Seq<u8>, Seq<u8>)>) -> Seq<(Seq<char>, Seq<char>)> {
    Seq::new(raw.len(), |i: int| (utf8_lossy(raw[i].0), utf8_lossy(raw[i].1)))
}

/// Turns a page of raw `(field, value)` pairs into text, pair by pair and in
/// order.
pub fn decode_hash_page(raw: &Vec<(Vec<u8>, Vec<u8>)>) -> (r: Vec<(String, String)>)
    ensures
        r.deep_view() == decoded(raw.deep_view()),
{
    let mut out: Vec<(String, String)> = Vec::new();
    let mut i: usize = 0;
    while i < raw.len()
        invariant
            i <= raw.len(),
            out.len() == i,
            forall|j: int|
                0 <= j < i ==> (#[trigger] out[j]).deep_view() == (
                    utf8_lossy(raw[j].0@),
                    utf8_lossy(raw[j].1@),
                ),
        decreases raw.len() - i,
    {
        out.push((text_of(&raw[i].0), text_of(&raw[i].1)));
        i = i + 1;
    }
    assert forall|j: int| 0 <= j < raw.len() implies #[trigger] raw.deep_view()[j] == (
        raw[j].0@,
        raw[j].1@,
    ) by {}
    out
}

/// The answer of the store to a request that reports a count.
pub open spec fn counted(r: Result<usize, Error>) -> Result<nat, ErrorView> {
    match r {
        Ok(n) => Ok(n as nat),
        Err(e) => Err(e@),
    }
}

/// The answer of the store to the request for a page of fields.
pub open spec fn fields_page(r: Result<(u64, Vec<(String, String)>), Error>) -> Result<
    (u64, Seq<(Seq<char>, Seq<char>)>),
    ErrorView,
> {
    match r {
        Ok((cursor, page)) => Ok((cursor, page.deep_view())),
        Err(e) => Err(e@),
    }
}

impl ServerView {
    /// The hash payload of the cache entry, if there is one.
    pub open spec fn hash_value(self) -> Option<HashView> {
        match self.value {
            Some(v) => v.hash_value(),
            None => None,
        }
    }

    /// The session with the cache entry at rest, where there is one.
    pub open spec fn settled(self) -> ServerView {
        ServerView {
            value: match self.value {
                Some(v) => Some(v.with_status(RedisValueStatus::Idle)),
                None => None,
            },
            ..self
        }
    }

    /// The session with the cache entry at rest and `h` as its payload,
    /// where the entry holds a hash.
    pub open spec fn settled_with(self, h: HashView) -> ServerView {
        ServerView {
            value: match self.value {
                Some(v) => Some(v.with_hash(h).with_status(RedisValueStatus::Idle)),
                None => None,
            },
            ..self
        }
    }

    /// Submits a write to the selected value: the entry is marked `status`
    /// and `request` is to be run. Nothing happens without a selected key
    /// and a cache entry, or where the counter of the task is used up.
    pub open spec fn submit_for_value(
        self,
        kind: ServerTask,
        status: RedisValueStatus,
        request: RequestView,
        events: Seq<EventView>,
    ) -> (ServerView, OutcomeView) {
        if self.key is Some && self.value is Some && self.tasks.can_submit(kind) {
            (
                ServerView {
                    value: Some(self.value->0.with_status(status)),
                    tasks: self.tasks.submitted(kind),
                    ..self
                },
                OutcomeView::run(self.tasks.next_record(kind), self.key_tree_id, request, events),
            )
        } else {
            (self, OutcomeView::nothing())
        }
    }

    /// Asks the store to set `field` of the selected key to `value`.
    pub open spec fn add_hash_value(self, field: Seq<char>, value: Seq<char>) -> (
        ServerView,
        OutcomeView,
    ) {
        match self.key {
            Some(key) => self.submit_for_value(
                ServerTask::AddValue,
                RedisValueStatus::Updating,
                RequestView::HashSet { key, field, value },
                Seq::empty(),
            ),
            None => (self, OutcomeView::nothing()),
        }
    }

    /// Whether the size that [`ServerView::apply_add_hash_value`] would
    /// record can be held.
    pub open spec fn add_fits(self, record: TaskRecord, result: Result<nat, ErrorView>) -> bool {
        self.takes(record, ServerTask::AddValue) && result is Ok && self.hash_value() is Some
            ==> self.hash_value()->0.size + result->Ok_0 <= usize::MAX
    }

    /// Takes in the store's answer to the addition of a field. The entry
    /// is at rest again, whatever the answer. On success the size of a
    /// cached hash grows by the number of fields that the store reports as
    /// newly created, which is 0 where a field was overwritten, and the
    /// addition is announced. A failure is reported and leaves the payload
    /// alone. An answer that may no longer be applied changes nothing.
    pub open spec fn apply_add_hash_value(
        self,
        record: TaskRecord,
        key: Seq<char>,
        result: Result<nat, ErrorView>,
    ) -> (ServerView, OutcomeView) {
        if !self.takes(record, ServerTask::AddValue) {
            (self, OutcomeView::nothing())
        } else {
            match result {
                Ok(created) => match self.hash_value() {
                    Some(h) => (
                        self.settled_with(h.add_fields(created)),
                        OutcomeView::told(
                            seq![
                                EventView::Notification(
                                    NotificationView::success(add_value_message()).with_title(
                                        add_value_title(),
                                    ),
                                ),
                                EventView::ValueAdded(key),
                            ],
                        ),
                    ),
                    None => (self.settled(), OutcomeView::changed()),
                },
                Err(e) => (self.settled(), OutcomeView::told(failure(e))),
            }
        }
    }

    /// Asks the store to remove `field` from the selected key.
    pub open spec fn remove_hash_value(self, field: Seq<char>) -> (ServerView, OutcomeView) {
        match self.key {
            Some(key) => self.submit_for_value(
                ServerTask::RemoveHashValue,
                RedisValueStatus::Loading,
                RequestView::HashDel { key, field },
                Seq::empty(),
            ),
            None => (self, OutcomeView::nothing()),
        }
    }

    /// Whether the size that [`ServerView::apply_remove_hash_value`] would
    /// record can be held.
    pub open spec fn remove_fits(self, record: TaskRecord, result: Result<nat, ErrorView>) -> bool {
        self.takes(record, ServerTask::RemoveHashValue) && result is Ok && self.hash_value() is Some
            ==> result->Ok_0 <= self.hash_value()->0.size
    }

    /// Takes in the store's answer to the removal of `field`. The entry is
    /// at rest again, whatever the answer. Where the store removed nothing,
    /// the payload stays as it is and nothing is announced. Where it removed
    /// something, a cached hash loses every pair of that name and as much of
    /// its size as the store reports, and the change is announced. A
    /// failure is reported and leaves the payload alone. An answer that may
    /// no longer be applied changes nothing.
    pub open spec fn apply_remove_hash_value(
        self,
        record: TaskRecord,
        key: Seq<char>,
        field: Seq<char>,
        result: Result<nat, ErrorView>,
    ) -> (ServerView, OutcomeView) {
        if !self.takes(record, ServerTask::RemoveHashValue) {
            (self, OutcomeView::nothing())
        } else {
            match result {
                Ok(removed) => (
                    match self.hash_value() {
                        Some(h) => self.settled_with(h.remove_field(field, removed)),
                        None => self.settled(),
                    },
                    if removed == 0 {
                        OutcomeView::changed()
                    } else {
                        OutcomeView::told(seq![EventView::ValueUpdated(key)])
                    },
                ),
                Err(e) => (self.settled(), OutcomeView::told(failure(e))),
            }
        }
    }

    /// Asks for the next page of the fields of the selected hash, from its
    /// cursor on and under its keyword. Nothing happens where no hash is
    /// cached, after the end of the enumeration, or where the counter of
    /// the task is used up.
    pub open spec fn load_more_hash_value(self) -> (ServerView, OutcomeView) {
        match (self.key, self.hash_value()) {
            (Some(key), Some(h)) => if h.done {
                (self, OutcomeView::nothing())
            } else {
                self.submit_for_value(
                    ServerTask::LoadMoreValue,
                    RedisValueStatus::Loading,
                    RequestView::HashScan {
                        key,
                        cursor: h.cursor,
                        pattern: contains_pattern(h.keyword),
                        count: page_size(h.keyword),
                    },
                    seq![EventView::ValuePaginationStarted(key)],
                )
            },
            _ => (self, OutcomeView::nothing()),
        }
    }

    /// Takes in the store's answer to the request for a page of fields.
    /// The entry is at rest again, whatever the answer, and the end of the
    /// fetch is announced. On success the page is appended to the fields of
    /// a cached hash, the cursor is the one that the store returned, and
    /// cursor 0 ends the enumeration. A failure is reported and leaves the
    /// payload alone. An answer that may no longer be applied changes
    /// nothing.
    pub open spec fn apply_load_more_hash_value(
        self,
        record: TaskRecord,
        key: Seq<char>,
        result: Result<(u64, Seq<(Seq<char>, Seq<char>)>), ErrorView>,
    ) -> (ServerView, OutcomeView) {
        if !self.takes(record, ServerTask::LoadMoreValue) {
            (self, OutcomeView::nothing())
        } else {
            match result {
                Ok((next, page)) => (
                    match self.hash_value() {
                        Some(h) => self.settled_with(h.append_page(next, page)),
                        None => self.settled(),
                    },
                    OutcomeView::told(seq![EventView::ValuePaginationFinished(key)]),
                ),
                Err(e) => (
                    self.settled(),
                    OutcomeView::told(failure(e) + seq![EventView::ValuePaginationFinished(key)]),
                ),
            }
        }
    }

    /// Enumerates the fields of the selected hash anew, keeping those whose
    /// name contains `keyword`: the fetched fields are dropped, the known
    /// size is kept, and the first page is asked for. Nothing happens where
    /// no hash is cached.
    pub open spec fn filter_hash_value(self, keyword: Seq<char>) -> (ServerView, OutcomeView) {
        match (self.value, self.hash_value()) {
            (Some(v), Some(h)) => (ServerView {
                value: Some(v.with_hash(h.filtered(keyword))),
                ..self
            }).load_more_hash_value(),
            _ => (self, OutcomeView::nothing()),
        }
    }
}

impl ZedisServerState {
    /// Puts the cache entry at rest, where there is one.
    fn settle(&mut self)
        ensures
            final(self)@ == old(self)@.settled(),
    {
        match &mut self.value {
            Some(v) => {
                v.status = RedisValueStatus::Idle;
            },
            None => {},
        }
    }

    /// Submits a write to the selected value.
    fn submit_for_value(
        &mut self,
        kind: ServerTask,
        status: RedisValueStatus,
        request: StoreRequest,
        events: Vec<ServerEvent>,
    ) -> (out: Outcome)
        ensures
            final(self)@ == old(self)@.submit_for_value(kind, status, request@, events.deep_view()).0,
            out@ == old(self)@.submit_for_value(kind, status, request@, events.deep_view()).1,
    {
        if self.key.is_none() || self.value.is_none() {
            return Outcome::nothing();
        }
        match self.tasks.submit(kind) {
            Some(record) => {
                match &mut self.value {
                    Some(v) => {
                        v.status = status;
                    },
                    None => {},
                }
                Outcome::run(record, self.key_tree_id, request, events)
            },
            None => Outcome::nothing(),
        }
    }

    /// The size of the cached hash, where one is cached.
    fn cached_size(&self) -> (r: Option<usize>)
        ensures
            match r {
                Some(n) => self@.hash_value() is Some && self@.hash_value()->0.size == n,
                None => self@.hash_value() is None,
            },
    {
        match &self.value {
            Some(v) => match v.hash_value() {
                Some(h) => Some(h.size),
                None => None,
            },
            None => None,
        }
    }

    /// Whether the size that [`ZedisServerState::apply_add_hash_value`]
    /// would record can be held: to be asked before that is called.
    pub fn add_fits(&self, record: TaskRecord, result: &Result<usize, Error>) -> (r: bool)
        ensures
            r == self@.add_fits(record, counted(*result)),
    {
        match (result, self.cached_size()) {
            (Ok(created), Some(size)) => !self.takes(record, ServerTask::AddValue) || *created
                <= usize::MAX - size,
            _ => true,
        }
    }

    /// Whether the size that [`ZedisServerState::apply_remove_hash_value`]
    /// would record can be held: to be asked before that is called.
    pub fn remove_fits(&self, record: TaskRecord, result: &Result<usize, Error>) -> (r: bool)
        ensures
            r == self@.remove_fits(record, counted(*result)),
    {
        match (result, self.cached_size()) {
            (Ok(removed), Some(size)) => !self.takes(record, ServerTask::RemoveHashValue)
                || *removed <= size,
            _ => true,
        }
    }

    /// Asks the store to set `new_field` of the selected key to
    /// `new_value`: the cache entry is marked as being updated, and the
    /// outcome holds the call to make. Nothing happens without a selected
    /// key and a cache entry.
    pub fn add_hash_value(&mut self, new_field: String, new_value: String) -> (out: Outcome)
        ensures
            final(self)@ == old(self)@.add_hash_value(new_field@, new_value@).0,
            out@ == old(self)@.add_hash_value(new_field@, new_value@).1,
    {
        let key = match &self.key {
            Some(k) => k.clone(),
            None => {
                return Outcome::nothing();
            },
        };
        self.submit_for_value(
            ServerTask::AddValue,
            RedisValueStatus::Updating,
            StoreRequest::HashSet { key, field: new_field, value: new_value },
            Vec::new(),
        )
    }

    /// Takes in the store's answer to the addition of a field to `key`:
    /// the number of fields that it newly created, or its failure. See
    /// [`ServerView::apply_add_hash_value`].
    pub fn apply_add_hash_value(
        &mut self,
        record: TaskRecord,
        key: String,
        result: Result<usize, Error>,
    ) -> (out: Outcome)
        requires
            old(self)@.add_fits(record, counted(result)),
        ensures
            final(self)@ == old(self)@.apply_add_hash_value(record, key@, counted(result)).0,
            out@ == old(self)@.apply_add_hash_value(record, key@, counted(result)).1,
    {
        if !self.takes(record, ServerTask::AddValue) {
            return Outcome::nothing();
        }
        self.settle();
        match result {
            Ok(created) => {
                match &mut self.value {
                    Some(v) => {
                        match &mut v.data {
                            Some(RedisValueData::Hash(shared)) => {
                                shared_add_fields(shared, created);
                                return Outcome::told(
                                    vec![
                                        ServerEvent::Notification(add_value_notification()),
                                        ServerEvent::ValueAdded(key),
                                    ],
                                );
                            },
                            _ => {},
                        }
                    },
                    None => {},
                }
                Outcome::changed()
            },
            Err(e) => Outcome::told(failure_events(e)),
        }
    }

    /// Asks the store to remove `remove_field` from the selected key: the
    /// cache entry is marked as loading, and the outcome holds the call to
    /// make. Nothing happens without a selected key and a cache entry.
    pub fn remove_hash_value(&mut self, remove_field: String) -> (out: Outcome)
        ensures
            final(self)@ == old(self)@.remove_hash_value(remove_field@).0,
            out@ == old(self)@.remove_hash_value(remove_field@).1,
    {
        let key = match &self.key {
            Some(k) => k.clone(),
            None => {
                return Outcome::nothing();
            },
        };
        self.submit_for_value(
            ServerTask::RemoveHashValue,
            RedisValueStatus::Loading,
            StoreRequest::HashDel { key, field: remove_field },
            Vec::new(),
        )
    }

    /// Takes in the store's answer to the removal of `remove_field` from
    /// `key`: the number of fields that it removed, or its failure. See
    /// [`ServerView::apply_remove_hash_value`].
    pub fn apply_remove_hash_value(
        &mut self,
        record: TaskRecord,
        key: String,
        remove_field: &str,
        result: Result<usize, Error>,
    ) -> (out: Outcome)
        requires
            old(self)@.remove_fits(record, counted(result)),
        ensures
            final(self)@ == old(self)@.apply_remove_hash_value(
                record,
                key@,
                remove_field@,
                counted(result),
            ).0,
            out@ == old(self)@.apply_remove_hash_value(
                record,
                key@,
                remove_field@,
                counted(result),
            ).1,
    {
        if !self.takes(record, ServerTask::RemoveHashValue) {
            return Outcome::nothing();
        }
        self.settle();
        match result {
            Ok(removed) => {
                match &mut self.value {
                    Some(v) => {
                        match &mut v.data {
                            Some(RedisValueData::Hash(shared)) => {
                                shared_remove_field(shared, remove_field, removed);
                            },
                            _ => {},
                        }
                    },
                    None => {},
                }
                if removed == 0 {
                    Outcome::changed()
                } else {
                    Outcome::told(vec![ServerEvent::ValueUpdated(key)])
                }
            },
            Err(e) => Outcome::told(failure_events(e)),
        }
    }

    /// Asks for the next page of the fields of the selected hash: the
    /// cache entry is marked as loading, the start of the fetch is announced,
    /// and the outcome holds the call to make. See
    /// [`ServerView::load_more_hash_value`].
    pub fn load_more_hash_value(&mut self) -> (out: Outcome)
        ensures
            final(self)@ == old(self)@.load_more_hash_value().0,
            out@ == old(self)@.load_more_hash_value().1,
    {
        let key = match &self.key {
            Some(k) => k.clone(),
            None => {
                return Outcome::nothing();
            },
        };
        let request = match &self.value {
            Some(v) => match v.hash_value() {
                Some(h) => {
                    if h.done {
                        return Outcome::nothing();
                    }
                    StoreRequest::HashScan {
                        key: key.clone(),
                        cursor: h.cursor,
                        pattern: contains_pattern_for(&h.keyword),
                        count: page_size_for(&h.keyword),
                    }
                },
                None => {
                    return Outcome::nothing();
                },
            },
            None => {
                return Outcome::nothing();
            },
        };
        self.submit_for_value(
            ServerTask::LoadMoreValue,
            RedisValueStatus::Loading,
            request,
            vec![ServerEvent::ValuePaginationStarted(key)],
        )
    }

    /// Takes in the store's answer to the request for a page of the fields
    /// of `key`: the cursor to go on from with the page, or its failure.
    /// See [`ServerView::apply_load_more_hash_value`].
    pub fn apply_load_more_hash_value(
        &mut self,
        record: TaskRecord,
        key: String,
        result: Result<(u64, Vec<(String, String)>), Error>,
    ) -> (out: Outcome)
        ensures
            final(self)@ == old(self)@.apply_load_more_hash_value(
                record,
                key@,
                fields_page(result),
            ).0,
            out@ == old(self)@.apply_load_more_hash_value(record, key@, fields_page(result)).1,
    {
        if !self.takes(record, ServerTask::LoadMoreValue) {
            return Outcome::nothing();
        }
        self.settle();
        let finished = ServerEvent::ValuePaginationFinished(key);
        match result {
            Ok((next, page)) => {
                match &mut self.value {
                    Some(v) => {
                        match &mut v.data {
                            Some(RedisValueData::Hash(shared)) => {
                                shared_append_page(shared, next, page);
                            },
                            _ => {},
                        }
                    },
                    None => {},
                }
                Outcome::told(vec![finished])
            },
            Err(e) => {
                let mut events = failure_events(e);
                events.push(finished);
                Outcome::told(events)
            },
        }
    }

    /// Enumerates the fields of the selected hash anew under `keyword`.
    /// See [`ServerView::filter_hash_value`].
    pub fn filter_hash_value(&mut self, keyword: String) -> (out: Outcome)
        ensures
            final(self)@ == old(self)@.filter_hash_value(keyword@).0,
            out@ == old(self)@.filter_hash_value(keyword@).1,
    {
        match &mut self.value {
            Some(v) => {
                let fresh = match v.hash_value() {
                    Some(h) => h.filtered(keyword),
                    None => {
                        return Outcome::nothing();
                    },
                };
                v.data = Some(RedisValueData::Hash(Arc::new(fresh)));
            },
            None => {
                return Outcome::nothing();
            },
        }
        self.load_more_hash_value()
    }
}

/// The cache entry that the first look at the hash `key` gives: `size` is
/// the store's count of its fields, `cursor` and `raw` are what the
/// enumeration of its fields returned from the start.
pub fn first_load_hash_value(size: usize, cursor: u64, raw: &Vec<(Vec<u8>, Vec<u8>)>) -> (r:
    RedisValue)
    ensures
        r@ == crate::states::server::value::ValueView::hash(
            size as nat,
            cursor,
            decoded(raw.deep_view()),
        ),
{
    RedisValue::hash(size, cursor, decode_hash_page(raw))
}

/// An answer to a write or to a request for more fields whose stamp is not
/// the latest of its kind changes nothing, announces nothing and asks for
/// nothing, whatever it holds.
pub proof fn lemma_superseded_write_changes_nothing(s: ServerView, record: TaskRecord)
    requires
        !s.tasks.accepts(record),
    ensures
        forall|key: Seq<char>, result: Result<nat, ErrorView>| #[trigger]
            s.apply_add_hash_value(record, key, result) == (s, OutcomeView::nothing()),
        forall|key: Seq<char>, field: Seq<char>, result: Result<nat, ErrorView>| #[trigger]
            s.apply_remove_hash_value(record, key, field, result) == (s, OutcomeView::nothing()),
        forall|key: Seq<char>, result: Result<(u64, Seq<(Seq<char>, Seq<char>)>), ErrorView>|
            #[trigger] s.apply_load_more_hash_value(record, key, result) == (
                s,
                OutcomeView::nothing(),
            ),
{
}

/// Of two submissions of one kind made one after the other, before either
/// is answered, only the second is still answered for: the stamp of the
/// first is superseded, that of the second is the latest.
pub proof fn lemma_later_submission_wins(
    s: ServerView,
    kind: ServerTask,
    first: (RedisValueStatus, RequestView, Seq<EventView>),
    second: (RedisValueStatus, RequestView, Seq<EventView>),
)
    requires
        s.key is Some,
        s.value is Some,
        s.tasks.epoch(kind) + 2 <= u64::MAX,
    ensures
        ({
            let (between, asked_first) = s.submit_for_value(kind, first.0, first.1, first.2);
            let (after, asked_second) = between.submit_for_value(kind, second.0, second.1, second.2);
            &&& asked_first.dispatch is Some
            &&& asked_second.dispatch is Some
            &&& !after.tasks.accepts(asked_first.dispatch->0.record)
            &&& after.takes(asked_second.dispatch->0.record, kind)
        }),
{
}

/// Of two additions asked for one after the other, before either is
/// answered, only the second changes the cache: the answer to the first
/// changes nothing and announces nothing, even where it comes last, and the
/// answer to the second is taken in.
pub proof fn lemma_later_addition_supersedes(
    s: ServerView,
    first: (Seq<char>, Seq<char>),
    second: (Seq<char>, Seq<char>),
    answer_first: Result<nat, ErrorView>,
    created: nat,
)
    requires
        s.key is Some,
        s.hash_value() is Some,
        s.tasks.epoch(ServerTask::AddValue) + 2 <= u64::MAX,
    ensures
        ({
            let (between, asked_first) = s.add_hash_value(first.0, first.1);
            let (after, asked_second) = between.add_hash_value(second.0, second.1);
            let key = s.key->0;
            let late = after.apply_add_hash_value(asked_first.dispatch->0.record, key, answer_first);
            let taken = after.apply_add_hash_value(
                asked_second.dispatch->0.record,
                key,
                Ok(created),
            );
            &&& asked_first.dispatch is Some
            &&& asked_second.dispatch is Some
            &&& late == (after, OutcomeView::nothing())
            &&& taken.0.hash_value() == Some(s.hash_value()->0.add_fields(created))
            &&& taken.0.value->0.status == RedisValueStatus::Idle
            &&& taken.0.apply_add_hash_value(asked_first.dispatch->0.record, key, answer_first) == (
                taken.0,
                OutcomeView::nothing(),
            )
        }),
{
}

/// Enumerating the fields anew under a keyword touches nothing but the
/// cached hash and the epoch of its pages: the selected key, the scan of the
/// keys and the keys found stay as they are, and the hash keeps its size.
pub proof fn lemma_filter_keeps_the_rest(s: ServerView, keyword: Seq<char>)
    ensures
        ({
            let after = s.filter_hash_value(keyword).0;
            &&& after.key == s.key
            &&& after.keys == s.keys
            &&& after.cursor == s.cursor
            &&& after.done == s.done
            &&& after.scaning == s.scaning
            &&& after.keyword == s.keyword
            &&& after.query_mode == s.query_mode
            &&& after.key_tree_id == s.key_tree_id
            &&& s.hash_value() is Some ==> after.hash_value() == Some(
                s.hash_value()->0.filtered(keyword),
            )
            &&& s.hash_value() is Some ==> after.hash_value()->0.size == s.hash_value()->0.size
            &&& s.hash_value() is None ==> after == s
        }),
{
}

/// The fields that a run of pages holds, page after page.
pub open spec fn all_of(pages: Seq<(u64, Seq<(Seq<char>, Seq<char>)>)>) -> Seq<(Seq<char>, Seq<char>)>
    decreases pages.len(),
{
    if pages.len() == 0 {
        Seq::empty()
    } else {
        all_of(pages.drop_last()) + pages.last().1
    }
}

/// Whether the store ends the enumeration with the last of `pages` and
/// with none before it: every page but the last comes with a cursor to go
/// on from, and the last comes with cursor 0.
pub open spec fn ends_with_last(pages: Seq<(u64, Seq<(Seq<char>, Seq<char>)>)>) -> bool {
    &&& pages.len() > 0
    &&& pages.last().0 == 0
    &&& forall|i: int| 0 <= i < pages.len() - 1 ==> (#[trigger] pages[i]).0 != 0
}

impl ServerView {
    /// The session after one request for more fields and its answer
    /// `page`.
    pub open spec fn fetch_page(self, page: (u64, Seq<(Seq<char>, Seq<char>)>)) -> ServerView {
        let (asked, out) = self.load_more_hash_value();
        match (out.dispatch, self.key) {
            (Some(d), Some(key)) => asked.apply_load_more_hash_value(
                d.record,
                key,
                Ok(page),
            ).0,
            _ => asked,
        }
    }

    /// The session after as many requests for more fields as `pages` has
    /// entries, each answered by the page of its turn.
    pub open spec fn fetch_pages(self, pages: Seq<(u64, Seq<(Seq<char>, Seq<char>)>)>) -> ServerView
        decreases pages.len(),
    {
        if pages.len() == 0 {
            self
        } else {
            self.fetch_pages(pages.drop_last()).fetch_page(pages.last())
        }
    }
}

/// Adding a field that the store did not hold before and removing it again
/// leaves the size of the hash as it was, and the field is not among the
/// fetched fields: here `count` is what the store reports as created by the
/// addition and as removed by the removal.
pub proof fn lemma_add_then_remove(h: HashView, field: Seq<char>, count: nat)
    requires
        count > 0,
    ensures
        h.add_fields(count).remove_field(field, count).size == h.size,
        !h.add_fields(count).remove_field(field, count).has_field(field),
        h.add_fields(count).remove_field(field, count).cursor == h.cursor,
        h.add_fields(count).remove_field(field, count).done == h.done,
        h.add_fields(count).remove_field(field, count).keyword == h.keyword,
{
    let keep = named_otherwise(field);
    let after = h.add_fields(count).remove_field(field, count);
    assert forall|i: int| 0 <= i < after.fields.len() implies (#[trigger] after.fields[i]).0
        != field by {
    }
}

/// The same of a session: where a hash is cached and both answers may
/// still be applied, the answer to an addition that created `count` fields
/// followed by the answer to the removal of `field` that removed as many
/// leaves the cached size as it was and `field` out of the cached fields; the
/// entry is at rest.
pub proof fn lemma_session_add_then_remove(
    s: ServerView,
    added: TaskRecord,
    removed: TaskRecord,
    key: Seq<char>,
    field: Seq<char>,
    count: nat,
)
    requires
        count > 0,
        s.hash_value() is Some,
        s.takes(added, ServerTask::AddValue),
        s.takes(removed, ServerTask::RemoveHashValue),
    ensures
        ({
            let after = s.apply_add_hash_value(added, key, Ok(count)).0.apply_remove_hash_value(
                removed,
                key,
                field,
                Ok(count),
            ).0;
            &&& after.hash_value() is Some
            &&& after.hash_value()->0.size == s.hash_value()->0.size
            &&& !after.hash_value()->0.has_field(field)
            &&& after.value->0.status == RedisValueStatus::Idle
        }),
{
}

/// What repeated requests for more fields lead to. Take a session with a
/// selected key and a cached hash whose enumeration is not over, room for
/// as many submissions as there are pages, and a store that ends the
/// enumeration with the last page and with none before it. Then every one of
/// the requests is made, and after the last answer the enumeration is over:
/// the cached fields are those cached before followed by the pages in order,
/// nothing more and nothing twice that the store did not send twice, the
/// cursor is 0, the entry is at rest, and one more request changes nothing
/// and asks for nothing.
pub proof fn lemma_pagination_ends(s: ServerView, pages: Seq<(u64, Seq<(Seq<char>, Seq<char>)>)>)
    requires
        s.key is Some,
        s.hash_value() is Some,
        !s.hash_value()->0.done,
        s.tasks.epoch(ServerTask::LoadMoreValue) + pages.len() <= u64::MAX,
        ends_with_last(pages),
    ensures
        ({
            let end = s.fetch_pages(pages);
            &&& end.hash_value() is Some
            &&& end.hash_value()->0.fields == s.hash_value()->0.fields + all_of(pages)
            &&& end.hash_value()->0.done
            &&& end.hash_value()->0.cursor == 0
            &&& end.hash_value()->0.size == s.hash_value()->0.size
            &&& end.value->0.status == RedisValueStatus::Idle
            &&& end.load_more_hash_value() == (end, OutcomeView::nothing())
            &&& (s.hash_value()->0.fields.len() == 0 && all_of(pages).no_duplicates()
                ==> end.hash_value()->0.fields.no_duplicates())
        }),
{
    lemma_pages_so_far(s, pages, pages.len() as int);
    assert(pages.take(pages.len() as int) =~= pages);
}

/// The state after the first `n` of the pages: the pages so far are
/// cached in order, and the enumeration is over exactly when all of them
/// are in.
proof fn lemma_pages_so_far(
    s: ServerView,
    pages: Seq<(u64, Seq<(Seq<char>, Seq<char>)>)>,
    n: int,
)
    requires
        s.key is Some,
        s.hash_value() is Some,
        !s.hash_value()->0.done,
        s.tasks.epoch(ServerTask::LoadMoreValue) + pages.len() <= u64::MAX,
        ends_with_last(pages),
        0 <= n <= pages.len(),
    ensures
        ({
            let at = s.fetch_pages(pages.take(n));
            &&& at.key == s.key
            &&& at.hash_value() is Some
            &&& at.hash_value()->0.fields == s.hash_value()->0.fields + all_of(pages.take(n))
            &&& at.hash_value()->0.done == (n == pages.len())
            &&& at.hash_value()->0.size == s.hash_value()->0.size
            &&& at.hash_value()->0.keyword == s.hash_value()->0.keyword
            &&& n > 0 ==> at.hash_value()->0.cursor == pages[n - 1].0
            &&& n > 0 ==> at.value->0.status == RedisValueStatus::Idle
            &&& at.tasks.epoch(ServerTask::LoadMoreValue) == s.tasks.epoch(ServerTask::LoadMoreValue)
                + n
        }),
    decreases n,
{
    if n > 0 {
        lemma_pages_so_far(s, pages, n - 1);
        assert(pages.take(n).drop_last() =~= pages.take(n - 1));
    }
}

} // verus!
