//! The cached value of the selected key.
//!
//! A hash payload is shared behind an `Arc`: a reader keeps the `Arc` it was
//! given and goes on seeing the payload as it was, because every change here
//! is made in place only while the cache is the payload's sole holder, and on
//! a private copy otherwise.

use std::sync::Arc;
use vstd::prelude::*;
use vstd::string::StringExecFns;

use crate::helpers::key_path::text_eq;

verus! {

/// The kind of value that a key holds in the store.
#[derive(Debug, Clone, Copy, PartialEq, Eq, Structural)]
pub enum KeyType {
    Unknown,
    String,
    List,
    UnorderedSet,
    SortedSet,
    Hash,
}

impl KeyType {
    /// The name under which the store reports this kind of value; the
    /// empty name for a kind that is not known.
    pub open spec fn name(self) -> Seq<char> {
        match self {
            KeyType::Unknown => ""@,
            KeyType::String => "string"@,
            KeyType::List => "list"@,
            KeyType::UnorderedSet => "set"@,
            KeyType::SortedSet => "zset"@,
            KeyType::Hash => "hash"@,
        }
    }

    /// The kind of value that the store reports under `name`.
    pub open spec fn named(name: Seq<char>) -> KeyType {
        if name == KeyType::String.name() {
            KeyType::String
        } else if name == KeyType::List.name() {
            KeyType::List
        } else if name == KeyType::UnorderedSet.name() {
            KeyType::UnorderedSet
        } else if name == KeyType::SortedSet.name() {
            KeyType::SortedSet
        } else if name == KeyType::Hash.name() {
            KeyType::Hash
        } else {
            KeyType::Unknown
        }
    }

    /// The name under which the store reports this kind of value; the
    /// empty name for a kind that is not known.
    pub fn as_str(&self) -> (r: &'static str)
        ensures
            r@ == self.name(),
    {
        match self {
            KeyType::Unknown => "",
            KeyType::String => "string",
            KeyType::List => "list",
            KeyType::UnorderedSet => "set",
            KeyType::SortedSet => "zset",
            KeyType::Hash => "hash",
        }
    }

    /// The kind of value that the store reports under `name`; a name that
    /// is none of the known ones gives [`KeyType::Unknown`].
    pub fn from_name(name: &str) -> (r: KeyType)
        ensures
            r == KeyType::named(name@),
    {
        if text_eq(name, "string") {
            KeyType::String
        } else if text_eq(name, "list") {
            KeyType::List
        } else if text_eq(name, "set") {
            KeyType::UnorderedSet
        } else if text_eq(name, "zset") {
            KeyType::SortedSet
        } else if text_eq(name, "hash") {
            KeyType::Hash
        } else {
            KeyType::Unknown
        }
    }
}

/// The store's name of a kind of value names that kind and no other.
pub proof fn lemma_kind_named(kind: KeyType)
    ensures
        KeyType::named(kind.name()) == kind,
{
    reveal_strlit("");
    reveal_strlit("string");
    reveal_strlit("list");
    reveal_strlit("set");
    reveal_strlit("zset");
    reveal_strlit("hash");
    assert(""@.len() == 0 && "string"@.len() == 6 && "set"@.len() == 3);
    assert("list"@[0] == 'l' && "zset"@[0] == 'z' && "hash"@[0] == 'h' && "set"@[0] == 's');
}

/// What is going on with the cached value.
#[derive(Debug, Clone, Copy, PartialEq, Eq, Structural)]
pub enum RedisValueStatus {
    /// Nothing is in flight.
    Idle,
    /// A read of the value is in flight.
    Loading,
    /// A write to the value is in flight.
    Updating,
}

/// The fields of a hash that have been fetched so far, with the state of the
/// paged enumeration that fetches them.
#[derive(Debug, Clone, PartialEq, Eq)]
pub struct RedisHashValue {
    /// Where the next page starts; 0 before the first page.
    pub cursor: u64,
    /// The number of fields that the store holds, as far as the cache knows.
    pub size: usize,
    /// The `(field, value)` pairs of the pages fetched so far, in order.
    pub values: Vec<(String, String)>,
    /// Whether the store has reported the end of the enumeration.
    pub done: bool,
    /// The text that a field has to contain to be enumerated, if any.
    pub keyword: Option<String>,
}

/// The mathematical value of a [`RedisHashValue`].
pub ghost struct HashView {
    pub cursor: u64,
    pub size: nat,
    pub fields: Seq<(Seq<char>, Seq<char>)>,
    pub done: bool,
    pub keyword: Option<Seq<char>>,
}

/// The view of an optional string.
pub open spec fn opt_text(s: Option<String>) -> Option<Seq<char>> {
    match s {
        Some(t) => Some(t@),
        None => None,
    }
}

/// The pairs whose name is not `field`.
pub open spec fn named_otherwise(field: Seq<char>) -> spec_fn((Seq<char>, Seq<char>)) -> bool {
    |p: (Seq<char>, Seq<char>)| p.0 != field
}

impl HashView {
    /// The payload that the first page of an enumeration gives.
    pub open spec fn first_page(
        size: nat,
        cursor: u64,
        page: Seq<(Seq<char>, Seq<char>)>,
    ) -> HashView {
        HashView { cursor, size, fields: page, done: cursor == 0, keyword: None }
    }

    /// An empty payload that enumerates anew under `keyword` and keeps the
    /// known size.
    pub open spec fn filtered(self, keyword: Seq<char>) -> HashView {
        HashView {
            cursor: 0,
            size: self.size,
            fields: Seq::empty(),
            done: false,
            keyword: Some(keyword),
        }
    }

    /// The payload after the store has created `created` new fields.
    pub open spec fn add_fields(self, created: nat) -> HashView {
        HashView { size: self.size + created, ..self }
    }

    /// The payload after the store has removed `removed` fields named
    /// `field`: untouched where nothing was removed.
    pub open spec fn remove_field(self, field: Seq<char>, removed: nat) -> HashView {
        if removed == 0 {
            self
        } else {
            HashView {
                size: (self.size - removed) as nat,
                fields: self.fields.filter(named_otherwise(field)),
                ..self
            }
        }
    }

    /// The payload after one more page: the page is appended, the cursor
    /// is the one that the store returned, and cursor 0 ends the enumeration.
    pub open spec fn append_page(
        self,
        next_cursor: u64,
        page: Seq<(Seq<char>, Seq<char>)>,
    ) -> HashView {
        HashView {
            cursor: next_cursor,
            done: self.done || next_cursor == 0,
            fields: self.fields + page,
            ..self
        }
    }

    /// Whether `field` is the name of one of the fetched fields.
    pub open spec fn has_field(self, field: Seq<char>) -> bool {
        exists|i: int| 0 <= i < self.fields.len() && (#[trigger] self.fields[i]).0 == field
    }
}

impl View for RedisHashValue {
    type V = HashView;

    open spec fn view(&self) -> HashView {
        HashView {
            cursor: self.cursor,
            size: self.size as nat,
            fields: self.values.deep_view(),
            done: self.done,
            keyword: opt_text(self.keyword),
        }
    }
}

/// A copy of a list of pairs.
fn copy_pairs(pairs: &Vec<(String, String)>) -> (r: Vec<(String, String)>)
    ensures
        r.deep_view() == pairs.deep_view(),
{
    let mut out: Vec<(String, String)> = Vec::new();
    let mut i: usize = 0;
    while i < pairs.len()
        invariant
            i <= pairs.len(),
            out.len() == i,
            forall|j: int| 0 <= j < i ==> (#[trigger] out[j]).deep_view() == pairs[j].deep_view(),
        decreases pairs.len() - i,
    {
        out.push((pairs[i].0.clone(), pairs[i].1.clone()));
        i = i + 1;
    }
    out
}

/// A copy of an optional string.
fn copy_text(s: &Option<String>) -> (r: Option<String>)
    ensures
        opt_text(r) == opt_text(*s),
{
    match s {
        Some(t) => Some(t.clone()),
        None => None,
    }
}

impl RedisHashValue {
    /// The payload that the first page of an enumeration gives: `size` is
    /// the store's count of the fields, and the enumeration is over at once
    /// where the store returned cursor 0.
    pub fn first_page(size: usize, cursor: u64, values: Vec<(String, String)>) -> (r: RedisHashValue)
        ensures
            r@ == HashView::first_page(size as nat, cursor, values.deep_view()),
    {
        RedisHashValue { cursor, size, values, done: cursor == 0, keyword: None }
    }

    /// An empty payload that enumerates anew under `keyword` and keeps the
    /// known size.
    pub fn filtered(&self, keyword: String) -> (r: RedisHashValue)
        ensures
            r@ == self@.filtered(keyword@),
    {
        let r = RedisHashValue {
            cursor: 0,
            size: self.size,
            values: Vec::new(),
            done: false,
            keyword: Some(keyword),
        };
        assert(r.values.deep_view() =~= Seq::empty());
        r
    }

    /// A copy that shares nothing with `self`.
    pub fn duplicate(&self) -> (r: RedisHashValue)
        ensures
            r@ == self@,
    {
        RedisHashValue {
            cursor: self.cursor,
            size: self.size,
            values: copy_pairs(&self.values),
            done: self.done,
            keyword: copy_text(&self.keyword),
        }
    }

    /// Records that the store has created `created` new fields.
    pub fn add_fields(&mut self, created: usize)
        requires
            old(self).size + created <= usize::MAX,
        ensures
            final(self)@ == old(self)@.add_fields(created as nat),
    {
        self.size = self.size + created;
    }

    /// Records that the store has removed `removed` fields named `field`:
    /// with a count of 0 nothing changes; otherwise every pair of that name
    /// leaves the fetched fields and the size goes down by the count.
    pub fn remove_field(&mut self, field: &str, removed: usize)
        requires
            removed <= old(self).size,
        ensures
            final(self)@ == old(self)@.remove_field(field@, removed as nat),
    {
        if removed != 0 {
            let mut all: Vec<(String, String)> = Vec::new();
            std::mem::swap(&mut all, &mut self.values);
            let ghost before = all.deep_view();
            let ghost keep = named_otherwise(field@);
            let mut kept: Vec<(String, String)> = Vec::new();
            for pair in it: all
                invariant
                    it.seq().len() == before.len(),
                    forall|j: int| 0 <= j < before.len() ==> (#[trigger] it.seq()[j]).deep_view() == before[j],
                    kept.deep_view() == before.take(it.index()).filter(keep),
                    keep == named_otherwise(field@),
            {
                let ghost n = it.index();
                proof {
                    assert(before.take(n + 1) =~= before.take(n).push(before[n]));
                    before.take(n).lemma_filter_push(before[n], keep);
                }
                if !text_eq(pair.0.as_str(), field) {
                    kept.push(pair);
                }
            }
            assert(before.take(before.len() as int) =~= before);
            self.values = kept;
            self.size = self.size - removed;
        }
    }

    /// Takes in one more page: the page is appended as it came, the cursor
    /// becomes the one that the store returned, and cursor 0 ends the
    /// enumeration.
    pub fn append_page(&mut self, next_cursor: u64, page: Vec<(String, String)>)
        ensures
            final(self)@ == old(self)@.append_page(next_cursor, page.deep_view()),
    {
        let ghost before = self.values.deep_view();
        let ghost added = page.deep_view();
        self.cursor = next_cursor;
        if next_cursor == 0 {
            self.done = true;
        }
        let mut page = page;
        self.values.append(&mut page);
        assert(self.values.deep_view() =~= before + added);
    }
}

/// The payload of a cached value, by the kind of the key.
#[derive(Debug, Clone, PartialEq, Eq)]
pub enum RedisValueData {
    /// The text of a string key.
    Text(String),
    /// The items of a list key.
    Items(Vec<String>),
    /// The fetched fields of a hash key, shared with whoever reads them.
    Hash(Arc<RedisHashValue>),
}

/// The mathematical value of a [`RedisValueData`].
pub ghost enum DataView {
    Text(Seq<char>),
    Items(Seq<Seq<char>>),
    Hash(HashView),
}

impl View for RedisValueData {
    type V = DataView;

    open spec fn view(&self) -> DataView {
        match self {
            RedisValueData::Text(t) => DataView::Text(t@),
            RedisValueData::Items(l) => DataView::Items(l.deep_view()),
            RedisValueData::Hash(h) => DataView::Hash(h@),
        }
    }
}

/// The view of an optional payload.
pub open spec fn opt_data(d: Option<RedisValueData>) -> Option<DataView> {
    match d {
        Some(x) => Some(x@),
        None => None,
    }
}

/// The expiry that the store reports for a key that does not exist.
pub const MISSING_KEY_EXPIRY: i64 = -2;

/// The cache entry of the selected key.
#[derive(Debug, Clone, PartialEq, Eq)]
pub struct RedisValue {
    pub key_type: KeyType,
    pub status: RedisValueStatus,
    pub data: Option<RedisValueData>,
    /// The expiry that the store reported, if it was asked.
    pub expire_at: Option<i64>,
}

/// The mathematical value of a [`RedisValue`].
pub ghost struct ValueView {
    pub key_type: KeyType,
    pub status: RedisValueStatus,
    pub data: Option<DataView>,
    pub expire_at: Option<i64>,
}

impl ValueView {
    /// An entry for which the fetch is still in flight.
    pub open spec fn loading() -> ValueView {
        ValueView {
            key_type: KeyType::Unknown,
            status: RedisValueStatus::Loading,
            data: None,
            expire_at: None,
        }
    }

    /// The entry of a hash key after the first page of its fields.
    pub open spec fn hash(size: nat, cursor: u64, page: Seq<(Seq<char>, Seq<char>)>) -> ValueView {
        ValueView {
            key_type: KeyType::Hash,
            status: RedisValueStatus::Idle,
            data: Some(DataView::Hash(HashView::first_page(size, cursor, page))),
            expire_at: None,
        }
    }

    /// The same entry with another status.
    pub open spec fn with_status(self, status: RedisValueStatus) -> ValueView {
        ValueView { status, ..self }
    }

    /// The hash payload, if the entry holds one.
    pub open spec fn hash_value(self) -> Option<HashView> {
        match self.data {
            Some(DataView::Hash(h)) => Some(h),
            _ => None,
        }
    }

    /// The same entry with `h` as its payload.
    pub open spec fn with_hash(self, h: HashView) -> ValueView {
        ValueView { data: Some(DataView::Hash(h)), ..self }
    }

    /// Whether the store reported that the key does not exist.
    pub open spec fn is_expired(self) -> bool {
        self.expire_at == Some(MISSING_KEY_EXPIRY)
    }
}

impl View for RedisValue {
    type V = ValueView;

    open spec fn view(&self) -> ValueView {
        ValueView {
            key_type: self.key_type,
            status: self.status,
            data: opt_data(self.data),
            expire_at: self.expire_at,
        }
    }
}

/// The view of an optional cache entry.
pub open spec fn opt_value(v: Option<RedisValue>) -> Option<ValueView> {
    match v {
        Some(x) => Some(x@),
        None => None,
    }
}

/// Exclusive access to a shared payload, where the caller is its only
/// holder.
///
/// Trusted: this is `std::sync::Arc::get_mut`. What comes back depends on
/// how many holders the payload has, which no contract here speaks of: so
/// the contract states only what holds in either case. With `Some`, the
/// reference points at the payload as it is, and what is written through it
/// is what the `Arc` holds afterwards. With `None`, the `Arc` is untouched.
#[verifier::external_body]
fn sole_holder(shared: &mut Arc<RedisHashValue>) -> (r: Option<&mut RedisHashValue>)
    ensures
        match r {
            Some(m) => *m == **old(shared) && **final(shared) == *final(m),
            None => *final(shared) == *old(shared),
        },
{
    Arc::get_mut(shared)
}

/// Records `created` new fields in a shared payload without disturbing
/// its other holders.
pub fn shared_add_fields(shared: &mut Arc<RedisHashValue>, created: usize)
    requires
        old(shared).size + created <= usize::MAX,
    ensures
        final(shared)@ == old(shared)@.add_fields(created as nat),
{
    match sole_holder(shared) {
        Some(own) => {
            own.add_fields(created);
        },
        None => {
            let mut copy = shared.duplicate();
            copy.add_fields(created);
            *shared = Arc::new(copy);
        },
    }
}

/// Records the removal of `field` in a shared payload without disturbing
/// its other holders.
pub fn shared_remove_field(shared: &mut Arc<RedisHashValue>, field: &str, removed: usize)
    requires
        removed <= old(shared).size,
    ensures
        final(shared)@ == old(shared)@.remove_field(field@, removed as nat),
{
    match sole_holder(shared) {
        Some(own) => {
            own.remove_field(field, removed);
        },
        None => {
            let mut copy = shared.duplicate();
            copy.remove_field(field, removed);
            *shared = Arc::new(copy);
        },
    }
}

/// Takes one more page into a shared payload without disturbing its other
/// holders.
pub fn shared_append_page(
    shared: &mut Arc<RedisHashValue>,
    next_cursor: u64,
    page: Vec<(String, String)>,
)
    ensures
        final(shared)@ == old(shared)@.append_page(next_cursor, page.deep_view()),
{
    match sole_holder(shared) {
        Some(own) => {
            own.append_page(next_cursor, page);
        },
        None => {
            let mut copy = shared.duplicate();
            copy.append_page(next_cursor, page);
            *shared = Arc::new(copy);
        },
    }
}

impl RedisValue {
    /// An entry for which the fetch is still in flight.
    pub fn loading() -> (r: RedisValue)
        ensures
            r@ == ValueView::loading(),
    {
        RedisValue {
            key_type: KeyType::Unknown,
            status: RedisValueStatus::Loading,
            data: None,
            expire_at: None,
        }
    }

    /// The entry of a hash key after the first page of its fields: `size`
    /// is the store's count of the fields, `cursor` and `values` are what
    /// the enumeration returned from its start.
    pub fn hash(size: usize, cursor: u64, values: Vec<(String, String)>) -> (r: RedisValue)
        ensures
            r@ == ValueView::hash(size as nat, cursor, values.deep_view()),
    {
        RedisValue {
            key_type: KeyType::Hash,
            status: RedisValueStatus::Idle,
            data: Some(RedisValueData::Hash(Arc::new(RedisHashValue::first_page(size, cursor, values)))),
            expire_at: None,
        }
    }

    /// The hash payload, if the entry holds one.
    pub fn hash_value(&self) -> (r: Option<&Arc<RedisHashValue>>)
        ensures
            match r {
                Some(h) => self@.hash_value() == Some(h@),
                None => self@.hash_value() is None,
            },
    {
        match &self.data {
            Some(RedisValueData::Hash(h)) => Some(h),
            _ => None,
        }
    }

    /// Whether the store reported that the key does not exist.
    pub fn is_expired(&self) -> (r: bool)
        ensures
            r == self@.is_expired(),
    {
        match self.expire_at {
            Some(at) => at == MISSING_KEY_EXPIRY,
            None => false,
        }
    }
}

} // verus!
