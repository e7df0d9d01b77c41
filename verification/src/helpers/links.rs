//! The hash maps and hash sets of `ahash`, as far as the tree of the keys
//! and its view use them.
//!
//! Nothing here is proved: Verus does not look into `ahash`. Each item
//! says in its comment which function of `ahash` or, behind it, of std's
//! `HashMap` and `HashSet` it stands for and what is claimed of it. A key is
//! taken by its text: two strings with the same text are the same key, as
//! `String`'s `Eq` and `Hash` have it.

use vstd::prelude::*;

verus! {

/// `ahash::AHashMap`, opaque to the verifier.
#[verifier::external_type_specification]
#[verifier::external_body]
#[verifier::reject_recursive_types(K)]
#[verifier::reject_recursive_types(V)]
#[verifier::reject_recursive_types(S)]
pub struct ExAHashMap<K, V, S>(ahash::AHashMap<K, V, S>);

/// `ahash::AHashSet`, opaque to the verifier.
#[verifier::external_type_specification]
#[verifier::external_body]
#[verifier::reject_recursive_types(T)]
#[verifier::reject_recursive_types(S)]
pub struct ExAHashSet<T, S>(ahash::AHashSet<T, S>);

/// `ahash::RandomState`, the hasher of both, opaque to the verifier.
#[verifier::external_type_specification]
#[verifier::external_body]
pub struct ExRandomState(ahash::RandomState);

/// What a map from short names to nodes holds.
pub uninterp spec fn links(m: ahash::AHashMap<String, usize>) -> Map<Seq<char>, usize>;

/// What a set of texts holds.
pub uninterp spec fn members(s: ahash::AHashSet<String>) -> Set<Seq<char>>;

/// The map without entries.
pub open spec fn no_links() -> Map<Seq<char>, usize> {
    Map::empty()
}

/// An empty map.
///
/// Trusted: `AHashMap::new`, which makes a map without entries.
#[verifier::external_body]
pub(crate) fn links_new() -> (m: ahash::AHashMap<String, usize>)
    ensures
        links(m) == no_links(),
{
    ahash::AHashMap::new()
}

/// The node under `label`, if the map has one.
///
/// Trusted: `AHashMap::get`, which returns the value stored under a key
/// that equals the given one, and `None` where there is no such key.
#[verifier::external_body]
pub(crate) fn links_get(m: &ahash::AHashMap<String, usize>, label: &str) -> (r: Option<usize>)
    ensures
        r == (if links(*m).contains_key(label@) {
            Some(links(*m)[label@])
        } else {
            None
        }),
{
    m.get(label).copied()
}

/// Puts `child` under `label`.
///
/// Trusted: `AHashMap::insert`, after which the key has the given value
/// and every other key has the value that it had.
#[verifier::external_body]
pub(crate) fn links_insert(m: &mut ahash::AHashMap<String, usize>, label: String, child: usize)
    ensures
        links(*final(m)) == links(*old(m)).insert(label@, child),
{
    m.insert(label, child);
}

/// The entries of the map, each once, in the order in which the map hands
/// them out.
///
/// Trusted: the iterator of `&AHashMap`, which visits every entry exactly
/// once. Its order depends on the hasher's seed, so nothing is claimed of
/// it: every pair that comes out is an entry, no key comes out twice, and
/// every key of the map comes out.
#[verifier::external_body]
pub(crate) fn links_entries(m: &ahash::AHashMap<String, usize>) -> (r: Vec<(String, usize)>)
    ensures
        forall|i: int| 0 <= i < r.len() ==> links(*m).contains_pair((#[trigger] r[i]).0@, r[i].1),
        forall|i: int, j: int| 0 <= i < j < r.len() ==> (#[trigger] r[i]).0@ != (#[trigger] r[j]).0@,
        forall|k: Seq<char>| #[trigger]
            links(*m).contains_key(k) ==> exists|i: int| 0 <= i < r.len() && (#[trigger] r[i]).0@ == k,
{
    m.into_iter().map(|(label, child)| (label.clone(), *child)).collect()
}

/// An empty set with room for `capacity` texts.
///
/// Trusted: `AHashSet::with_capacity`, which makes a set without members.
#[verifier::external_body]
pub(crate) fn members_with_capacity(capacity: usize) -> (s: ahash::AHashSet<String>)
    ensures
        members(s) == Set::<Seq<char>>::empty(),
{
    ahash::AHashSet::with_capacity(capacity)
}

/// Whether `text` is a member.
///
/// Trusted: `HashSet::contains`, reached through `AHashSet`'s `Deref`.
#[verifier::external_body]
pub(crate) fn members_contains(s: &ahash::AHashSet<String>, text: &str) -> (r: bool)
    ensures
        r == members(*s).contains(text@),
{
    s.contains(text)
}

/// Makes `text` a member.
///
/// Trusted: `HashSet::insert`, reached through `AHashSet`'s `DerefMut`,
/// after which the set holds what it held and the given value.
#[verifier::external_body]
pub(crate) fn members_insert(s: &mut ahash::AHashSet<String>, text: String)
    ensures
        members(*final(s)) == members(*old(s)).insert(text@),
{
    s.insert(text);
}

/// Makes `text` no member.
///
/// Trusted: `HashSet::remove`, reached through `AHashSet`'s `DerefMut`,
/// after which the set holds what it held but the given value.
#[verifier::external_body]
pub(crate) fn members_remove(s: &mut ahash::AHashSet<String>, text: &str)
    ensures
        members(*final(s)) == members(*old(s)).remove(text@),
{
    s.remove(text);
}

/// Empties the set.
///
/// Trusted: `HashSet::clear`, reached through `AHashSet`'s `DerefMut`,
/// after which the set has no member.
#[verifier::external_body]
pub(crate) fn members_clear(s: &mut ahash::AHashSet<String>)
    ensures
        members(*final(s)) == Set::<Seq<char>>::empty(),
{
    s.clear();
}

} // verus!
