//! The tree of the keys: a trie over their segments, and the ordered list
//! of entries that is shown of it.

use vstd::multiset::Multiset;
use vstd::prelude::*;
use vstd::string::StringExecFns;

use crate::helpers::key_path::{
    all_colon_free, child_full_path, child_path, colon_free, full_path, joined,
    lemma_full_path_is_join, lemma_lex_asymmetric, lemma_lex_irreflexive, lemma_lex_total,
    lemma_lex_transitive, lemma_segments_injective, lemma_segments_join, lemma_segments_shape,
    lex_lt, segments, split_key, text_lt,
};
use crate::helpers::links::{links, links_entries, links_get, links_insert, links_new, no_links};

verus! {

/// An entry of the tree as it is shown: a key or a folder of keys, with
/// the entries below it.
#[derive(Debug, PartialEq, Eq)]
pub struct TreeItem {
    /// The full path of the entry, which identifies it.
    pub id: String,
    /// The short name of the entry, which is shown.
    pub label: String,
    /// The entries below this one, in the order in which they are shown.
    pub children: Vec<TreeItem>,
}

/// The mathematical value of a [`TreeItem`].
pub ghost struct Entry {
    pub id: Seq<char>,
    pub label: Seq<char>,
    pub children: Seq<Entry>,
}

/// The value of an entry.
pub open spec fn entry_of(item: TreeItem) -> Entry
    decreases item,
{
    Entry { id: item.id@, label: item.label@, children: entries_of(item.children@) }
}

/// The values of a list of entries.
pub open spec fn entries_of(items: Seq<TreeItem>) -> Seq<Entry>
    decreases items,
{
    if items.len() == 0 {
        Seq::empty()
    } else {
        entries_of(items.drop_last()).push(entry_of(items.last()))
    }
}

impl View for TreeItem {
    type V = Entry;

    open spec fn view(&self) -> Entry {
        entry_of(*self)
    }
}

/// The list of the values is as long as the list of the entries and holds
/// the value of each in its place.
pub proof fn lemma_entries(items: Seq<TreeItem>)
    ensures
        entries_of(items).len() == items.len(),
        forall|i: int| 0 <= i < items.len() ==> #[trigger] entries_of(items)[i] == entry_of(items[i]),
    decreases items.len(),
{
    if items.len() > 0 {
        lemma_entries(items.drop_last());
        assert forall|i: int| 0 <= i < items.len() implies #[trigger] entries_of(items)[i]
            == entry_of(items[i]) by {
            if i < items.len() - 1 {
                assert(items.drop_last()[i] == items[i]);
            }
        }
    }
}

/// Whether an entry is a folder: it has entries below it.
pub open spec fn is_folder(e: Entry) -> bool {
    e.children.len() > 0
}

/// The order of the entries below one parent: a folder before every entry
/// that is none, and among folders as among the others the one whose full
/// path is first in the order of texts.
pub open spec fn comes_before(a: Entry, b: Entry) -> bool {
    if is_folder(a) != is_folder(b) {
        is_folder(a)
    } else {
        lex_lt(a.id, b.id)
    }
}

/// The set of the keys of a list.
pub open spec fn key_set(keys: Seq<Seq<char>>) -> Set<Seq<char>> {
    keys.to_set()
}

/// Whether the trie of `keys` has a node that `path` leads to from the
/// root: the path is not empty and the segments of some key begin with it.
pub open spec fn has_node(keys: Set<Seq<char>>, path: Seq<Seq<char>>) -> bool {
    path.len() >= 1 && exists|k: Seq<char>|
        keys.contains(k) && path.is_prefix_of(#[trigger] segments(k))
}

/// Whether `items` shows what the trie of `keys` has below the node that
/// `parent` leads to: there is one entry for each child of that node and no
/// other, under the child's short name and with the child's full path; the
/// entries stand in order; and each of them shows in the same way what is
/// below its child.
pub open spec fn is_display(items: Seq<Entry>, keys: Set<Seq<char>>, parent: Seq<Seq<char>>) -> bool
    decreases items,
{
    &&& forall|i: int|
        0 <= i < items.len() ==> {
            &&& has_node(keys, parent.push((#[trigger] items[i]).label))
            &&& items[i].id == full_path(parent.push(items[i].label))
            &&& is_display(items[i].children, keys, parent.push(items[i].label))
        }
    &&& forall|s: Seq<char>|
        has_node(keys, #[trigger] parent.push(s)) ==> exists|i: int|
            0 <= i < items.len() && (#[trigger] items[i]).label == s
    &&& forall|i: int, j: int|
        0 <= i < j < items.len() ==> comes_before(#[trigger] items[i], #[trigger] items[j])
}

/// Whether `items` is the tree of `keys` as it is shown.
pub open spec fn display_of(items: Seq<TreeItem>, keys: Set<Seq<char>>) -> bool {
    is_display(entries_of(items), keys, Seq::empty())
}

impl TreeItem {
    /// An entry without entries below it.
    pub fn new(id: String, label: String) -> (r: TreeItem)
        ensures
            r@ == (Entry { id: id@, label: label@, children: Seq::empty() }),
    {
        TreeItem { id, label, children: Vec::new() }
    }

    /// The same entry with `children` below it.
    pub fn children(self, children: Vec<TreeItem>) -> (r: TreeItem)
        ensures
            r@ == (Entry { id: self@.id, label: self@.label, children: entries_of(children@) }),
    {
        TreeItem { id: self.id, label: self.label, children }
    }

    /// Whether the entry is a folder.
    pub fn is_folder(&self) -> (r: bool)
        ensures
            r == is_folder(self@),
    {
        proof {
            lemma_entries(self.children@);
        }
        self.children.len() > 0
    }
}

/// Whether `a` comes before `b` among the entries below one parent.
pub fn item_before(a: &TreeItem, b: &TreeItem) -> (r: bool)
    ensures
        r == comes_before(a@, b@),
{
    let fa = a.is_folder();
    let fb = b.is_folder();
    if fa != fb {
        fa
    } else {
        text_lt(a.id.as_str(), b.id.as_str())
    }
}

/// The order of the entries is one: nothing comes before itself, of two
/// entries at most one comes before the other, and what comes before an
/// entry comes before all that the entry comes before. Two entries of which
/// neither comes before the other are both folders or both none, and have
/// the same full path.
pub proof fn lemma_order_of_entries(a: Entry, b: Entry, c: Entry)
    ensures
        !comes_before(a, a),
        comes_before(a, b) ==> !comes_before(b, a),
        comes_before(a, b) && comes_before(b, c) ==> comes_before(a, c),
        !comes_before(a, b) && !comes_before(b, a) ==> is_folder(a) == is_folder(b) && a.id == b.id,
{
    lemma_lex_irreflexive(a.id);
    lemma_lex_total(a.id, b.id);
    if lex_lt(a.id, b.id) {
        lemma_lex_asymmetric(a.id, b.id);
        if lex_lt(b.id, c.id) {
            lemma_lex_transitive(a.id, b.id, c.id);
        }
    }
}

/// An entry that does not come before a second one, which does not come
/// before a third, does not come before the third.
proof fn lemma_not_before(a: Entry, b: Entry, c: Entry)
    requires
        !comes_before(a, b),
        !comes_before(b, c),
    ensures
        !comes_before(a, c),
{
    lemma_lex_total(a.id, b.id);
    lemma_lex_total(b.id, c.id);
    if lex_lt(a.id, c.id) {
        lemma_lex_asymmetric(a.id, c.id);
        if lex_lt(c.id, b.id) {
            lemma_lex_transitive(a.id, c.id, b.id);
        }
        if lex_lt(b.id, a.id) {
            lemma_lex_transitive(b.id, a.id, c.id);
        }
    }
}

/// Whether no entry of `items` stands before one that comes before it.
spec fn ascending(items: Seq<TreeItem>) -> bool {
    forall|i: int, j: int|
        0 <= i < j < items.len() ==> !comes_before(
            #[trigger] entry_of(items[j]),
            #[trigger] entry_of(items[i]),
        )
}

/// Whether no entry of `items` stands after one that comes before it.
spec fn descending(items: Seq<TreeItem>) -> bool {
    forall|i: int, j: int|
        0 <= i < j < items.len() ==> !comes_before(
            #[trigger] entry_of(items[i]),
            #[trigger] entry_of(items[j]),
        )
}

/// Whether no entry of `high` comes before an entry of `low`.
spec fn above(high: Seq<TreeItem>, low: Seq<TreeItem>) -> bool {
    forall|i: int, j: int|
        0 <= i < high.len() && 0 <= j < low.len() ==> !comes_before(
            #[trigger] entry_of(high[i]),
            #[trigger] entry_of(low[j]),
        )
}

/// The entries in the opposite order.
fn reversed(items: Vec<TreeItem>) -> (r: Vec<TreeItem>)
    ensures
        r@ == items@.reverse(),
{
    let ghost all = items@;
    let mut rest = items;
    let mut r: Vec<TreeItem> = Vec::new();
    while rest.len() > 0
        invariant
            rest@ == all.take(rest.len() as int),
            r.len() + rest.len() == all.len(),
            forall|i: int| 0 <= i < r.len() ==> r[i] == all[all.len() - 1 - i],
        decreases rest.len(),
    {
        let item = rest.pop().unwrap();
        r.push(item);
    }
    assert(r@ =~= all.reverse());
    r
}

/// Merges two lists of entries in order into one.
fn merged(left: Vec<TreeItem>, right: Vec<TreeItem>) -> (r: Vec<TreeItem>)
    requires
        ascending(left@),
        ascending(right@),
    ensures
        ascending(r@),
        r@.to_multiset() == left@.to_multiset().add(right@.to_multiset()),
{
    broadcast use {vstd::seq_lib::group_to_multiset_ensures, vstd::multiset::group_multiset_axioms};

    let ghost all = left@.to_multiset().add(right@.to_multiset());
    let mut left = left;
    let mut right = right;
    // the entries are taken from the ends, the last ones first
    let mut down: Vec<TreeItem> = Vec::new();
    while left.len() > 0 || right.len() > 0
        invariant
            ascending(left@),
            ascending(right@),
            descending(down@),
            above(down@, left@),
            above(down@, right@),
            down@.to_multiset().add(left@.to_multiset()).add(right@.to_multiset()) == all,
        decreases left.len() + right.len(),
    {
        let ghost before_left = left@;
        let ghost before_right = right@;
        let ghost before_down = down@;
        let from_right = left.len() == 0 || (right.len() > 0 && !item_before(
            &right[right.len() - 1],
            &left[left.len() - 1],
        ));
        let item = if from_right {
            right.pop().unwrap()
        } else {
            left.pop().unwrap()
        };
        proof {
            let e = entry_of(item);
            if from_right {
                assert(before_right =~= right@.push(item));
                assert forall|j: int| 0 <= j < left@.len() implies !comes_before(
                    e,
                    #[trigger] entry_of(left@[j]),
                ) by {
                    let top = left@.len() - 1;
                    lemma_order_of_entries(entry_of(left@[top]), e, e);
                    if j < top {
                        assert(!comes_before(entry_of(left@[top]), entry_of(left@[j])));
                    }
                    lemma_not_before(e, entry_of(left@[top]), entry_of(left@[j]));
                }
                assert forall|j: int| 0 <= j < right@.len() implies !comes_before(
                    e,
                    #[trigger] entry_of(right@[j]),
                ) by {
                    assert(before_right[j] == right@[j]);
                }
            } else {
                assert(before_left =~= left@.push(item));
                assert forall|j: int| 0 <= j < right@.len() implies !comes_before(
                    e,
                    #[trigger] entry_of(right@[j]),
                ) by {
                    let top = right@.len() - 1;
                    lemma_order_of_entries(entry_of(right@[top]), e, entry_of(right@[top]));
                    if j < top {
                        assert(!comes_before(entry_of(right@[top]), entry_of(right@[j])));
                    }
                    lemma_not_before(e, entry_of(right@[top]), entry_of(right@[j]));
                }
                assert forall|j: int| 0 <= j < left@.len() implies !comes_before(
                    e,
                    #[trigger] entry_of(left@[j]),
                ) by {
                    assert(before_left[j] == left@[j]);
                }
            }
            assert forall|i: int| 0 <= i < before_down.len() implies !comes_before(
                #[trigger] entry_of(before_down[i]),
                e,
            ) by {
                if from_right {
                    assert(entry_of(before_right[before_right.len() - 1]) == e);
                } else {
                    assert(entry_of(before_left[before_left.len() - 1]) == e);
                }
            }
        }
        down.push(item);
        proof {
            let now = down@;
            assert forall|i: int, j: int| 0 <= i < j < now.len() implies !comes_before(
                #[trigger] entry_of(now[i]),
                #[trigger] entry_of(now[j]),
            ) by {
                if j < before_down.len() {
                    assert(now[i] == before_down[i] && now[j] == before_down[j]);
                } else {
                    assert(now[i] == before_down[i]);
                }
            }
            assert forall|i: int, j: int| 0 <= i < now.len() && 0 <= j < left@.len() implies !comes_before(
                #[trigger] entry_of(now[i]),
                #[trigger] entry_of(left@[j]),
            ) by {
                if i < before_down.len() {
                    assert(now[i] == before_down[i]);
                    assert(left@[j] == before_left[j]);
                }
            }
            assert forall|i: int, j: int| 0 <= i < now.len() && 0 <= j < right@.len() implies !comes_before(
                #[trigger] entry_of(now[i]),
                #[trigger] entry_of(right@[j]),
            ) by {
                if i < before_down.len() {
                    assert(now[i] == before_down[i]);
                    assert(right@[j] == before_right[j]);
                }
            }
            vstd::seq_lib::to_multiset_build(before_down, item);
            if from_right {
                vstd::seq_lib::to_multiset_build(right@, item);
            } else {
                vstd::seq_lib::to_multiset_build(left@, item);
            }
            assert(now.to_multiset().add(left@.to_multiset()).add(right@.to_multiset()) =~= all);
        }
    }
    let ghost fallen = down@;
    let r = reversed(down);
    proof {
        fallen.lemma_reverse_to_multiset();
        assert(left@.to_multiset() =~= Multiset::empty());
        assert(right@.to_multiset() =~= Multiset::empty());
        assert(r@.to_multiset() =~= all);
        assert forall|i: int, j: int| 0 <= i < j < r@.len() implies !comes_before(
            #[trigger] entry_of(r@[j]),
            #[trigger] entry_of(r@[i]),
        ) by {
            assert(r@[j] == fallen[fallen.len() - 1 - j]);
            assert(r@[i] == fallen[fallen.len() - 1 - i]);
        }
    }
    r
}

/// Sorts the entries below one parent: the entries are the same as
/// before, each as often as before, and none stands before one that comes
/// before it.
fn sort_items(items: Vec<TreeItem>) -> (sorted: Vec<TreeItem>)
    ensures
        sorted@.to_multiset() == items@.to_multiset(),
        ascending(sorted@),
    decreases items.len(),
{
    if items.len() <= 1 {
        return items;
    }
    let ghost all = items@;
    let mut left = items;
    let half = left.len() / 2;
    let right = left.split_off(half);
    proof {
        assert(all =~= left@ + right@);
        vstd::seq_lib::lemma_multiset_commutative(left@, right@);
    }
    let left = sort_items(left);
    let right = sort_items(right);
    merged(left, right)
}

/// A node of the trie. The nodes of a trie stand in one list, the root
/// first and every node after its parent, and name one another by their
/// place in it.
pub struct KeyNode {
    /// The full path, such as `dir1:dir2`.
    full_path: String,
    /// The short name, such as `dir2`; it holds no delimiter.
    label: String,
    /// The place of the parent.
    parent: usize,
    /// Whether a key ends here.
    is_key: bool,
    /// The places of the children, by their short names.
    children: ahash::AHashMap<String, usize>,
}

/// The short names on the way from the root to the node at place `i`.
pub closed spec fn path_of(nodes: Seq<KeyNode>, i: int) -> Seq<Seq<char>>
    decreases i,
{
    if 0 < i < nodes.len() && (nodes[i].parent as int) < i {
        path_of(nodes, nodes[i].parent as int).push(nodes[i].label@)
    } else {
        Seq::empty()
    }
}

/// Whether the node at place `c` has a child.
spec fn has_child(nodes: Seq<KeyNode>, c: int) -> bool {
    exists|s: Seq<char>| #[trigger] links(nodes[c].children).contains_key(s)
}

/// Whether the node at place `c` comes after its parent, has a short name
/// without delimiter and the full path that its parent's full path and its
/// short name give, and is what its parent's map holds under that name.
spec fn node_ok(nodes: Seq<KeyNode>, c: int) -> bool {
    &&& (nodes[c].parent as int) < c
    &&& colon_free(nodes[c].label@)
    &&& nodes[c].full_path@ == child_path(nodes[nodes[c].parent as int].full_path@, nodes[c].label@)
    &&& links(nodes[nodes[c].parent as int].children).contains_pair(nodes[c].label@, c as usize)
}

/// Whether what the map of the node at place `i` holds under `s`, if
/// anything, is a child of that node with that short name.
spec fn link_ok(nodes: Seq<KeyNode>, i: int, s: Seq<char>) -> bool {
    links(nodes[i].children).contains_key(s) ==> {
        let c = links(nodes[i].children)[s] as int;
        &&& 1 <= c < nodes.len()
        &&& nodes[c].parent == i
        &&& nodes[c].label@ == s
    }
}

/// Whether the node at place `c` is a key or has a child.
spec fn leaf_ok(nodes: Seq<KeyNode>, c: int) -> bool {
    nodes[c].is_key || has_child(nodes, c)
}

/// Whether the nodes hang together as a trie: the root is first and is no
/// key; every other node comes after its parent, has a short name without
/// delimiter and the full path that its parent's full path and its short
/// name give, and is what its parent's map holds under that short name; and
/// the maps hold nothing else.
spec fn shape_ok(nodes: Seq<KeyNode>) -> bool {
    &&& 1 <= nodes.len() <= usize::MAX + 1
    &&& nodes[0].parent == 0
    &&& nodes[0].label@.len() == 0
    &&& nodes[0].full_path@.len() == 0
    &&& !nodes[0].is_key
    &&& forall|c: int| 1 <= c < nodes.len() ==> #[trigger] node_ok(nodes, c)
    &&& forall|i: int, s: Seq<char>| 0 <= i < nodes.len() ==> #[trigger] link_ok(nodes, i, s)
}

/// Whether every node but the root and the one at place `but` is a key or
/// has a child: no branch ends without a key.
spec fn leaves_marked(nodes: Seq<KeyNode>, but: int) -> bool {
    forall|c: int| 1 <= c < nodes.len() && c != but ==> #[trigger] leaf_ok(nodes, c)
}

/// Whether a key ends at the node that `path` leads to.
spec fn is_marked_path(nodes: Seq<KeyNode>, path: Seq<Seq<char>>) -> bool {
    exists|j: int| 1 <= j < nodes.len() && nodes[j].is_key && #[trigger] path_of(nodes, j) == path
}

/// Whether `path` leads to a node.
spec fn is_node_path(nodes: Seq<KeyNode>, path: Seq<Seq<char>>) -> bool {
    exists|j: int| 1 <= j < nodes.len() && #[trigger] path_of(nodes, j) == path
}

/// Whether two nodes agree in all but their children.
spec fn same_node(a: KeyNode, b: KeyNode) -> bool {
    &&& a.parent == b.parent
    &&& a.label@ == b.label@
    &&& a.full_path@ == b.full_path@
    &&& a.is_key == b.is_key
}

/// The path of a node is that of its parent with its own short name.
proof fn lemma_path_step(nodes: Seq<KeyNode>, c: int)
    requires
        shape_ok(nodes),
        1 <= c < nodes.len(),
    ensures
        path_of(nodes, c) == path_of(nodes, nodes[c].parent as int).push(nodes[c].label@),
        path_of(nodes, c).len() >= 1,
        path_of(nodes, 0) == Seq::<Seq<char>>::empty(),
        0 <= (nodes[c].parent as int) < c,
        node_ok(nodes, c),
{
    assert(node_ok(nodes, c));
}

/// The paths of the first `n` nodes depend on their parents and short names
/// alone.
proof fn lemma_path_frame(a: Seq<KeyNode>, b: Seq<KeyNode>, n: int, j: int)
    requires
        0 <= j < n,
        n <= a.len(),
        n <= b.len(),
        forall|k: int| 0 <= k < n ==> same_node(#[trigger] a[k], b[k]),
    ensures
        path_of(a, j) == path_of(b, j),
    decreases j,
{
    assert(same_node(a[j], b[j]));
    if 0 < j && (a[j].parent as int) < j {
        lemma_path_frame(a, b, n, a[j].parent as int);
    }
}

/// No two nodes have the same path.
proof fn lemma_paths_differ(nodes: Seq<KeyNode>, a: int, b: int)
    requires
        shape_ok(nodes),
        0 <= a < nodes.len(),
        0 <= b < nodes.len(),
        path_of(nodes, a) == path_of(nodes, b),
    ensures
        a == b,
    decreases a,
{
    if a == 0 {
        if b != 0 {
            lemma_path_step(nodes, b);
        }
    } else {
        lemma_path_step(nodes, a);
        if b == 0 {
        } else {
            lemma_path_step(nodes, b);
            let pa = nodes[a].parent as int;
            let pb = nodes[b].parent as int;
            let x = path_of(nodes, pa).push(nodes[a].label@);
            let y = path_of(nodes, pb).push(nodes[b].label@);
            assert(x.drop_last() =~= path_of(nodes, pa));
            assert(y.drop_last() =~= path_of(nodes, pb));
            assert(x.last() == nodes[a].label@);
            assert(y.last() == nodes[b].label@);
            assert(x == y);
            lemma_paths_differ(nodes, pa, pb);
            assert(links(nodes[pa].children).contains_pair(nodes[a].label@, a as usize));
            assert(links(nodes[pb].children).contains_pair(nodes[b].label@, b as usize));
        }
    }
}

/// The short names on the path of a node hold no delimiter, and the full
/// path of the node is what its path gives.
proof fn lemma_path_texts(nodes: Seq<KeyNode>, c: int)
    requires
        shape_ok(nodes),
        0 <= c < nodes.len(),
    ensures
        all_colon_free(path_of(nodes, c)),
        nodes[c].full_path@ == full_path(path_of(nodes, c)),
    decreases c,
{
    if c > 0 {
        lemma_path_step(nodes, c);
        let p = nodes[c].parent as int;
        lemma_path_texts(nodes, p);
        let path = path_of(nodes, c);
        assert(path.drop_last() =~= path_of(nodes, p));
        assert forall|i: int| 0 <= i < path.len() implies colon_free(#[trigger] path[i]) by {
            if i < path.len() - 1 {
                assert(path[i] == path_of(nodes, p)[i]);
            }
        }
    }
}

/// Every path that a node's path begins with, the empty one aside, leads
/// to a node.
proof fn lemma_prefix_is_node(nodes: Seq<KeyNode>, c: int, path: Seq<Seq<char>>)
    requires
        shape_ok(nodes),
        1 <= c < nodes.len(),
        path.len() >= 1,
        path.is_prefix_of(path_of(nodes, c)),
    ensures
        is_node_path(nodes, path),
    decreases c,
{
    lemma_path_step(nodes, c);
    let whole = path_of(nodes, c);
    if path.len() == whole.len() {
        assert(path =~= whole);
    } else {
        let p = nodes[c].parent as int;
        assert(path.is_prefix_of(path_of(nodes, p))) by {
            assert(path =~= path_of(nodes, p).subrange(0, path.len() as int));
        }
        if p == 0 {
            assert(false);
        }
        lemma_prefix_is_node(nodes, p, path);
    }
}

/// Below every node but the root a key ends: at the node or further down.
proof fn lemma_key_below(nodes: Seq<KeyNode>, c: int) -> (j: int)
    requires
        shape_ok(nodes),
        leaves_marked(nodes, 0),
        1 <= c < nodes.len(),
    ensures
        1 <= j < nodes.len(),
        nodes[j].is_key,
        path_of(nodes, c).is_prefix_of(path_of(nodes, j)),
    decreases nodes.len() - c,
{
    if nodes[c].is_key {
        c
    } else {
        assert(leaf_ok(nodes, c));
        let s = choose|s: Seq<char>| #[trigger] links(nodes[c].children).contains_key(s);
        assert(link_ok(nodes, c, s));
        let child = links(nodes[c].children)[s] as int;
        lemma_path_step(nodes, child);
        let j = lemma_key_below(nodes, child);
        assert(path_of(nodes, c).is_prefix_of(path_of(nodes, j))) by {
            let pc = path_of(nodes, c);
            let pj = path_of(nodes, j);
            let pch = path_of(nodes, child);
            assert(pch.subrange(0, pc.len() as int) =~= pc);
            assert(pj.subrange(0, pc.len() as int) =~= pj.subrange(0, pch.len() as int).subrange(
                0,
                pc.len() as int,
            ));
        }
        j
    }
}

/// The trie of a set of keys.
pub struct KeyTrie {
    nodes: Vec<KeyNode>,
}

impl KeyTrie {
    /// Whether the trie hangs together: see the laws below for what that
    /// gives.
    pub closed spec fn wf(self) -> bool {
        shape_ok(self.nodes@) && leaves_marked(self.nodes@, 0)
    }

    /// The keys of the trie.
    pub closed spec fn keys(self) -> Set<Seq<char>> {
        Set::new(|k: Seq<char>| is_marked_path(self.nodes@, segments(k)))
    }

    /// The number of nodes, the root among them.
    pub closed spec fn node_count(self) -> nat {
        self.nodes@.len()
    }

    /// The short names on the way from the root to the node at place `i`.
    pub closed spec fn path_at(self, i: int) -> Seq<Seq<char>> {
        path_of(self.nodes@, i)
    }

    /// The full path of the node at place `i`.
    pub closed spec fn full_path_at(self, i: int) -> Seq<char> {
        self.nodes@[i].full_path@
    }

    /// Whether a key ends at the node at place `i`.
    pub closed spec fn is_key_at(self, i: int) -> bool {
        self.nodes@[i].is_key
    }

    /// The place of the child of the node at place `i` that has the short
    /// name `label`.
    pub closed spec fn child_at(self, i: int, label: Seq<char>) -> Option<int> {
        if links(self.nodes@[i].children).contains_key(label) {
            Some(links(self.nodes@[i].children)[label] as int)
        } else {
            None
        }
    }

    /// The place that `path` leads to from the root, from child to child by
    /// the short names.
    pub open spec fn walk(self, path: Seq<Seq<char>>) -> Option<int>
        decreases path.len(),
    {
        if path.len() == 0 {
            Some(0)
        } else {
            match self.walk(path.drop_last()) {
                Some(i) => if 0 <= i < self.node_count() {
                    self.child_at(i, path.last())
                } else {
                    None
                },
                None => None,
            }
        }
    }

    /// The trie without keys: the root alone.
    pub fn new() -> (r: KeyTrie)
        ensures
            r.wf(),
            r.keys() == Set::<Seq<char>>::empty(),
            r.node_count() == 1,
    {
        let mut nodes: Vec<KeyNode> = Vec::new();
        nodes.push(
            KeyNode {
                full_path: String::new(),
                label: String::new(),
                parent: 0,
                is_key: false,
                children: links_new(),
            },
        );
        KeyTrie { nodes }
    }

    /// Goes from the node at place `cur` to its child named `label`,
    /// which is made where it is not there yet.
    fn descend(&mut self, cur: usize, label: &str, Ghost(start): Ghost<Seq<KeyNode>>) -> (next: usize)
        requires
            growing(start, old(self).nodes@, cur as int),
            colon_free(label@),
        ensures
            growing(start, final(self).nodes@, next as int),
            next >= 1,
            path_of(final(self).nodes@, next as int) == path_of(old(self).nodes@, cur as int).push(
                label@,
            ),
            links(old(self).nodes@[cur as int].children).contains_key(label@) ==> final(self).nodes@
                == old(self).nodes@,
    {
        let ghost before = self.nodes@;
        match links_get(&self.nodes[cur].children, label) {
            Some(child) => {
                proof {
                    assert(link_ok(before, cur as int, label@));
                    lemma_path_step(before, child as int);
                }
                child
            },
            None => {
                let at = self.nodes.len();
                let node = KeyNode {
                    full_path: child_full_path(self.nodes[cur].full_path.as_str(), label),
                    label: String::from_str(label),
                    parent: cur,
                    is_key: false,
                    children: links_new(),
                };
                self.nodes.push(node);
                links_insert(&mut self.nodes[cur].children, String::from_str(label), at);
                proof {
                    lemma_grown(start, before, self.nodes@, cur as int, label@);
                }
                at
            },
        }
    }

    /// Puts `key` into the trie: walks down from the root by the segments
    /// of the key, makes the nodes that are not there yet, and marks the last
    /// one as a key. The keys of the trie are then those that it had and
    /// `key`; a key that it had already changes nothing of that.
    pub fn insert(&mut self, key: &str)
        requires
            old(self).wf(),
        ensures
            final(self).wf(),
            final(self).keys() == old(self).keys().insert(key@),
            final(self).node_count() >= old(self).node_count(),
            old(self).keys().contains(key@) ==> final(self).node_count() == old(self).node_count(),
    {
        let parts = split_key(key);
        let ghost segs = segments(key@);
        let ghost start = self.nodes@;
        proof {
            lemma_segments_shape(key@);
        }
        let mut cur: usize = 0;
        let mut i: usize = 0;
        while i < parts.len()
            invariant
                parts.deep_view() == segs,
                all_colon_free(segs),
                i <= parts.len(),
                growing(start, self.nodes@, cur as int),
                i > 0 ==> cur >= 1,
                path_of(self.nodes@, cur as int) == segs.take(i as int),
                start == old(self).nodes@,
                segs == segments(key@),
                old(self).wf(),
                old(self).keys().contains(key@) ==> self.nodes@ == start,
            decreases parts.len() - i,
        {
            proof {
                assert(segs.take(i + 1) =~= segs.take(i as int).push(segs[i as int]));
                if old(self).keys().contains(key@) {
                    lemma_child_is_linked(*old(self), cur as int, segs[i as int]);
                }
            }
            cur = self.descend(cur, parts[i].as_str(), Ghost(start));
            i = i + 1;
        }
        let ghost before = self.nodes@;
        self.nodes[cur].is_key = true;
        proof {
            assert(segs.take(segs.len() as int) =~= segs);
            lemma_marked(start, before, self.nodes@, cur as int, key@);
        }
    }

    /// Puts the keys of `keys` from place `from` on into the trie, one
    /// after the other.
    pub fn insert_all(&mut self, keys: &Vec<String>, from: usize)
        requires
            old(self).wf(),
            from <= keys.len(),
        ensures
            final(self).wf(),
            final(self).keys() == old(self).keys().union(key_set(keys.deep_view().skip(from as int))),
            final(self).node_count() >= old(self).node_count(),
    {
        let ghost all = keys.deep_view();
        let mut i: usize = from;
        proof {
            assert(key_set(all.subrange(from as int, from as int)) =~= Set::empty());
        }
        while i < keys.len()
            invariant
                all == keys.deep_view(),
                from <= i <= keys.len(),
                self.wf(),
                self.keys() == old(self).keys().union(key_set(all.subrange(from as int, i as int))),
                self.node_count() >= old(self).node_count(),
            decreases keys.len() - i,
        {
            let ghost before = all.subrange(from as int, i as int);
            self.insert(keys[i].as_str());
            proof {
                assert(all.subrange(from as int, i + 1) =~= before.push(all[i as int]));
                lemma_key_set_push(before, all[i as int]);
            }
            i = i + 1;
        }
        proof {
            assert(all.subrange(from as int, keys.len() as int) =~= all.skip(from as int));
        }
    }

    /// The trie of `keys`: they are put in one after the other.
    pub fn build(keys: &Vec<String>) -> (r: KeyTrie)
        ensures
            r.wf(),
            r.keys() == key_set(keys.deep_view()),
    {
        let mut trie = KeyTrie::new();
        trie.insert_all(keys, 0);
        proof {
            assert(keys.deep_view().skip(0) =~= keys.deep_view());
        }
        trie
    }

    /// The number of nodes, the root among them.
    pub fn len(&self) -> (r: usize)
        ensures
            r == self.node_count(),
    {
        self.nodes.len()
    }

    /// The full path of the node at place `i`.
    pub fn full_path(&self, i: usize) -> (r: &str)
        requires
            i < self.node_count(),
        ensures
            r@ == self.full_path_at(i as int),
    {
        self.nodes[i].full_path.as_str()
    }

    /// Whether a key ends at the node at place `i`.
    pub fn is_key(&self, i: usize) -> (r: bool)
        requires
            i < self.node_count(),
        ensures
            r == self.is_key_at(i as int),
    {
        self.nodes[i].is_key
    }

    /// The place of the node that the segments of `key` lead to from the
    /// root, if they lead to one.
    pub fn find(&self, key: &str) -> (r: Option<usize>)
        requires
            self.wf(),
        ensures
            match r {
                Some(i) => self.walk(segments(key@)) == Some(i as int) && i < self.node_count(),
                None => self.walk(segments(key@)) is None,
            },
    {
        let parts = split_key(key);
        let ghost segs = segments(key@);
        let mut cur: usize = 0;
        let mut i: usize = 0;
        proof {
            assert(segs.take(0) =~= Seq::empty());
        }
        while i < parts.len()
            invariant
                segs == segments(key@),
                parts.deep_view() == segs,
                i <= parts.len(),
                shape_ok(self.nodes@),
                cur < self.nodes.len(),
                self.walk(segs.take(i as int)) == Some(cur as int),
            decreases parts.len() - i,
        {
            proof {
                assert(parts.deep_view()[i as int] == parts[i as int]@);
                assert(segs.take(i + 1).drop_last() =~= segs.take(i as int));
                assert(segs.take(i + 1).last() == segs[i as int]);
                assert(link_ok(self.nodes@, cur as int, segs[i as int]));
            }
            match links_get(&self.nodes[cur].children, parts[i].as_str()) {
                Some(child) => {
                    cur = child;
                },
                None => {
                    proof {
                        lemma_walk_stops(*self, segs, i as int + 1);
                        assert(segs.take(segs.len() as int) =~= segs);
                    }
                    return None;
                },
            }
            i = i + 1;
        }
        proof {
            assert(segs.take(segs.len() as int) =~= segs);
        }
        Some(cur)
    }

    /// Whether `key` is a key of the trie.
    pub fn contains(&self, key: &str) -> (r: bool)
        requires
            self.wf(),
        ensures
            r == self.keys().contains(key@),
    {
        proof {
            lemma_segments_shape(key@);
            lemma_walk_leads(*self, segments(key@));
            if self.keys().contains(key@) {
                self.lemma_key_has_one_node(key@);
            }
        }
        match self.find(key) {
            Some(i) => self.nodes[i].is_key,
            None => false,
        }
    }

    /// The entries below the node at place `at`, in order.
    fn convert(&self, at: usize) -> (items: Vec<TreeItem>)
        requires
            self.wf(),
            at < self.node_count(),
        ensures
            is_display(entries_of(items@), self.keys(), path_of(self.nodes@, at as int)),
        decreases self.nodes@.len() - at,
    {
        let ghost keys = self.keys();
        let ghost parent = path_of(self.nodes@, at as int);
        let pairs = links_entries(&self.nodes[at].children);
        let mut items: Vec<TreeItem> = Vec::new();
        let mut i: usize = 0;
        while i < pairs.len()
            invariant
                self.wf(),
                at < self.node_count(),
                keys == self.keys(),
                parent == path_of(self.nodes@, at as int),
                i <= pairs.len(),
                items.len() == i,
                forall|n: int|
                    0 <= n < pairs.len() ==> links(self.nodes@[at as int].children).contains_pair(
                        (#[trigger] pairs[n]).0@,
                        pairs[n].1,
                    ),
                forall|n: int|
                    0 <= n < i ==> (#[trigger] items[n]).label@ == pairs[n].0@ && item_fits(
                        items[n],
                        keys,
                        parent,
                    ),
            decreases pairs.len() - i,
        {
            let child = pairs[i].1;
            proof {
                assert(link_ok(self.nodes@, at as int, pairs[i as int].0@));
                lemma_path_step(self.nodes@, child as int);
                lemma_path_texts(self.nodes@, child as int);
                lemma_node_in_keys(*self, child as int);
            }
            let below = self.convert(child);
            let item = TreeItem {
                id: self.nodes[child].full_path.clone(),
                label: pairs[i].0.clone(),
                children: below,
            };
            assert(item_fits(item, keys, parent));
            items.push(item);
            i = i + 1;
        }
        let ghost unsorted = items@;
        let items = sort_items(items);
        proof {
            assert forall|s: Seq<char>| has_node(keys, #[trigger] parent.push(s)) implies exists|
                n: int,
            | 0 <= n < unsorted.len() && (#[trigger] unsorted[n]).label@ == s by {
                lemma_child_is_linked(*self, at as int, s);
                let n = choose|n: int| 0 <= n < pairs.len() && (#[trigger] pairs[n]).0@ == s;
                assert(unsorted[n].label@ == s);
            }
            assert forall|a: int, b: int| 0 <= a < b < unsorted.len() implies (
            #[trigger] unsorted[a]).label@ != (#[trigger] unsorted[b]).label@ by {
                assert(pairs[a].0@ != pairs[b].0@);
            }
            lemma_display_sorted(unsorted, items@, keys, parent);
        }
        items
    }

    /// The tree as it is shown: for every node below the root one entry
    /// with the node's full path and short name, under the entry of its
    /// parent, folders before the others and equals by full path.
    pub fn to_tree_items(&self) -> (items: Vec<TreeItem>)
        requires
            self.wf(),
        ensures
            display_of(items@, self.keys()),
    {
        self.convert(0)
    }

    /// Every key of the trie has exactly one node: the one that the
    /// segments of the key lead to from the root. A key ends there, and no
    /// other node has that path.
    pub proof fn lemma_key_has_one_node(self, key: Seq<char>)
        requires
            self.wf(),
            self.keys().contains(key),
        ensures
            self.walk(segments(key)) is Some,
            1 <= self.walk(segments(key))->0 < self.node_count(),
            self.is_key_at(self.walk(segments(key))->0),
            self.path_at(self.walk(segments(key))->0) == segments(key),
            forall|j: int|
                0 <= j < self.node_count() && #[trigger] self.path_at(j) == segments(key) ==> j
                    == self.walk(segments(key))->0,
    {
        let nodes = self.nodes@;
        let j = choose|j: int|
            1 <= j < nodes.len() && nodes[j].is_key && #[trigger] path_of(nodes, j) == segments(key);
        lemma_walk_reaches(self, j);
        assert forall|n: int|
            0 <= n < self.node_count() && #[trigger] self.path_at(n) == segments(key) implies n
            == j by {
            lemma_paths_differ(nodes, n, j);
        }
    }

    /// Every node is where its path leads to from the root, a node that a
    /// key ends at has the segments of one of the keys as its path, and every
    /// node but the root lies on the way to a key.
    pub proof fn lemma_node_is_reached(self, i: int)
        requires
            self.wf(),
            0 <= i < self.node_count(),
        ensures
            self.walk(self.path_at(i)) == Some(i),
            self.is_key_at(i) ==> self.keys().contains(joined(self.path_at(i))) && segments(
                joined(self.path_at(i)),
            ) == self.path_at(i),
            i >= 1 ==> has_node(self.keys(), self.path_at(i)),
    {
        let nodes = self.nodes@;
        lemma_walk_reaches(self, i);
        if i >= 1 {
            lemma_path_step(nodes, i);
            lemma_path_texts(nodes, i);
            lemma_segments_join(path_of(nodes, i));
            lemma_node_in_keys(self, i);
        }
    }

    /// The nodes below the root are what the keys call for, no more and no
    /// fewer: a path that is not empty leads to a node exactly where the
    /// segments of some key begin with it.
    pub proof fn lemma_nodes_are_key_paths(self, path: Seq<Seq<char>>)
        requires
            self.wf(),
            path.len() >= 1,
        ensures
            self.walk(path) is Some <==> has_node(self.keys(), path),
            self.walk(path) is Some ==> 1 <= self.walk(path)->0 < self.node_count() && self.path_at(
                self.walk(path)->0,
            ) == path,
    {
        let nodes = self.nodes@;
        lemma_walk_leads(self, path);
        if self.walk(path) is Some {
            let i = self.walk(path)->0;
            if i == 0 {
                assert(path_of(nodes, 0).len() == 0);
            }
            lemma_node_in_keys(self, i);
        }
        if has_node(self.keys(), path) {
            lemma_key_path_is_node(self, path);
            let c = choose|c: int| 1 <= c < nodes.len() && #[trigger] path_of(nodes, c) == path;
            lemma_walk_reaches(self, c);
        }
    }

    /// The full path of a node is the colon-join of the short names on its
    /// path from the root, for every node whose path does not begin with an
    /// empty short name and go on. (Below a node with an empty full path the
    /// full path of a child is its short name alone, so that the key `:a`
    /// ends at a node with the full path `a`.)
    pub proof fn lemma_full_path_of_node(self, i: int)
        requires
            self.wf(),
            0 <= i < self.node_count(),
            self.path_at(i).len() >= 2 ==> self.path_at(i)[0].len() > 0,
        ensures
            self.full_path_at(i) == joined(self.path_at(i)),
            self.full_path_at(i) == full_path(self.path_at(i)),
    {
        lemma_path_texts(self.nodes@, i);
        lemma_full_path_is_join(self.path_at(i));
    }
}

/// What holds of the nodes while a key is being put in: they hang together;
/// the nodes that were there at the start are as they were but for their
/// children; the nodes made since are no keys; nothing was made while the
/// walk was among the old nodes; and the place `cur` of the walk is the only
/// one where a branch may end without a key, with no child yet if it is new.
spec fn growing(start: Seq<KeyNode>, now: Seq<KeyNode>, cur: int) -> bool {
    &&& shape_ok(start)
    &&& leaves_marked(start, 0)
    &&& shape_ok(now)
    &&& 0 <= cur < now.len()
    &&& now.len() >= start.len()
    &&& cur < start.len() ==> now.len() == start.len()
    &&& forall|j: int| 0 <= j < start.len() ==> same_node(#[trigger] now[j], start[j])
    &&& forall|j: int| start.len() <= j < now.len() ==> !(#[trigger] now[j]).is_key
    &&& cur >= start.len() ==> links(now[cur].children) == no_links()
    &&& leaves_marked(
        now,
        if cur >= start.len() {
            cur
        } else {
            0
        },
    )
}

/// Whether `now` is `before` with one more node, named `label`, under
/// the node at place `cur`.
spec fn with_child(before: Seq<KeyNode>, now: Seq<KeyNode>, cur: int, label: Seq<char>) -> bool {
    let at = before.len() as int;
    &&& now.len() == at + 1
    &&& at <= usize::MAX
    &&& 0 <= cur < at
    &&& forall|k: int| 0 <= k < at ==> same_node(#[trigger] now[k], before[k])
    &&& forall|k: int|
        0 <= k < at && k != cur ==> links((#[trigger] now[k]).children) == links(before[k].children)
    &&& links(now[cur].children) == links(before[cur].children).insert(label, at as usize)
    &&& now[at].parent == cur
    &&& now[at].label@ == label
    &&& now[at].full_path@ == child_path(before[cur].full_path@, label)
    &&& !now[at].is_key
    &&& links(now[at].children) == no_links()
}

/// Whether `now` is `before` with the node at place `cur` marked as a key.
spec fn with_mark(before: Seq<KeyNode>, now: Seq<KeyNode>, cur: int) -> bool {
    &&& now.len() == before.len()
    &&& 1 <= cur < now.len()
    &&& now[cur].is_key
    &&& forall|k: int|
        0 <= k < before.len() ==> {
            &&& (#[trigger] now[k]).parent == before[k].parent
            &&& now[k].label@ == before[k].label@
            &&& now[k].full_path@ == before[k].full_path@
            &&& links(now[k].children) == links(before[k].children)
            &&& k != cur ==> now[k].is_key == before[k].is_key
        }
}

/// A new child keeps the nodes hanging together.
proof fn lemma_shape_with_child(before: Seq<KeyNode>, now: Seq<KeyNode>, cur: int, label: Seq<char>)
    requires
        shape_ok(before),
        with_child(before, now, cur, label),
        colon_free(label),
        !links(before[cur].children).contains_key(label),
    ensures
        shape_ok(now),
        forall|k: int| 0 <= k < before.len() ==> path_of(now, k) == path_of(before, k),
        path_of(now, before.len() as int) == path_of(before, cur).push(label),
{
    let at = before.len() as int;
    assert forall|k: int| 0 <= k < at implies path_of(now, k) == path_of(before, k) by {
        lemma_path_frame(now, before, at, k);
    }
    assert forall|c: int| 1 <= c < now.len() implies #[trigger] node_ok(now, c) by {
        if c < at {
            assert(same_node(now[c], before[c]));
            assert(node_ok(before, c));
            let p = before[c].parent as int;
            assert(same_node(now[p], before[p]));
            if p == cur {
                assert(before[c].label@ != label);
            }
        } else {
            assert(same_node(now[cur], before[cur]));
        }
    }
    assert forall|n: int, s: Seq<char>| 0 <= n < now.len() implies #[trigger] link_ok(
        now,
        n,
        s,
    ) by {
        if links(now[n].children).contains_key(s) {
            if n == at {
                assert(false);
            } else if n == cur && s == label {
            } else {
                assert(link_ok(before, n, s));
                let c = links(before[n].children)[s] as int;
                assert(same_node(now[c], before[c]));
            }
        }
    }
}

/// A new child under the place of the walk keeps what holds while a key is
/// being put in, with the walk at the child.
proof fn lemma_grown(
    start: Seq<KeyNode>,
    before: Seq<KeyNode>,
    now: Seq<KeyNode>,
    cur: int,
    label: Seq<char>,
)
    requires
        growing(start, before, cur),
        with_child(before, now, cur, label),
        colon_free(label),
        !links(before[cur].children).contains_key(label),
    ensures
        growing(start, now, before.len() as int),
        path_of(now, before.len() as int) == path_of(before, cur).push(label),
{
    let at = before.len() as int;
    lemma_shape_with_child(before, now, cur, label);
    assert forall|j: int| 0 <= j < start.len() implies same_node(#[trigger] now[j], start[j]) by {
        assert(same_node(now[j], before[j]));
        assert(same_node(before[j], start[j]));
    }
    assert forall|j: int| start.len() <= j < now.len() implies !(#[trigger] now[j]).is_key by {
        if j < at {
            assert(same_node(now[j], before[j]));
            assert(!before[j].is_key);
        }
    }
    assert forall|c: int| 1 <= c < now.len() && c != at implies #[trigger] leaf_ok(now, c) by {
        assert(same_node(now[c], before[c]));
        if c == cur {
            assert(links(now[c].children).contains_key(label));
        } else {
            assert(leaf_ok(before, c));
            if has_child(before, c) {
                let s = choose|s: Seq<char>| #[trigger] links(before[c].children).contains_key(s);
                assert(links(now[c].children).contains_key(s));
            }
        }
    }
}

/// Marking a node keeps the nodes hanging together and their paths as
/// they are.
proof fn lemma_shape_with_mark(before: Seq<KeyNode>, now: Seq<KeyNode>, cur: int)
    requires
        shape_ok(before),
        with_mark(before, now, cur),
    ensures
        shape_ok(now),
        forall|k: int| 0 <= k < now.len() ==> path_of(now, k) == path_of(before, k),
{
    assert forall|k: int| 0 <= k < now.len() implies path_of(now, k) == path_of(before, k) by {
        lemma_same_paths(now, before, k);
    }
    assert forall|c: int| 1 <= c < now.len() implies #[trigger] node_ok(now, c) by {
        assert(node_ok(before, c));
    }
    assert forall|n: int, s: Seq<char>| 0 <= n < now.len() implies #[trigger] link_ok(
        now,
        n,
        s,
    ) by {
        assert(link_ok(before, n, s));
    }
}

/// Nodes with the same parents and short names have the same paths.
proof fn lemma_same_paths(a: Seq<KeyNode>, b: Seq<KeyNode>, j: int)
    requires
        a.len() == b.len(),
        0 <= j < a.len(),
        forall|k: int|
            0 <= k < a.len() ==> (#[trigger] a[k]).parent == b[k].parent && a[k].label@
                == b[k].label@,
    ensures
        path_of(a, j) == path_of(b, j),
    decreases j,
{
    if 0 < j && (a[j].parent as int) < j {
        lemma_same_paths(a, b, a[j].parent as int);
    }
}

/// Marking the end of the walk as a key makes the trie whole again, with
/// the key among its keys.
proof fn lemma_marked(
    start: Seq<KeyNode>,
    before: Seq<KeyNode>,
    now: Seq<KeyNode>,
    cur: int,
    key: Seq<char>,
)
    requires
        growing(start, before, cur),
        path_of(before, cur) == segments(key),
        with_mark(before, now, cur),
    ensures
        shape_ok(now),
        leaves_marked(now, 0),
        forall|k: Seq<char>|
            is_marked_path(now, segments(k)) <==> (is_marked_path(start, segments(k)) || k == key),
{
    lemma_shape_with_mark(before, now, cur);
    assert forall|k: int| 0 <= k < start.len() implies path_of(before, k) == path_of(start, k) by {
        lemma_path_frame(before, start, start.len() as int, k);
    }
    assert forall|c: int| 1 <= c < now.len() implies #[trigger] leaf_ok(now, c) by {
        if c != cur {
            assert(leaf_ok(before, c));
            if has_child(before, c) {
                let s = choose|s: Seq<char>| #[trigger] links(before[c].children).contains_key(s);
                assert(links(now[c].children).contains_key(s));
            }
        }
    }
    assert forall|k: Seq<char>| is_marked_path(now, segments(k)) <==> (is_marked_path(
        start,
        segments(k),
    ) || k == key) by {
        if k == key {
            assert(now[cur].is_key && path_of(now, cur) == segments(k));
        } else if is_marked_path(start, segments(k)) {
            let j = choose|j: int|
                1 <= j < start.len() && start[j].is_key && #[trigger] path_of(start, j) == segments(
                    k,
                );
            assert(same_node(before[j], start[j]));
            assert(path_of(now, j) == path_of(before, j));
            assert(now[j].is_key && path_of(now, j) == segments(k));
        } else if is_marked_path(now, segments(k)) {
            let j = choose|j: int|
                1 <= j < now.len() && now[j].is_key && #[trigger] path_of(now, j) == segments(k);
            assert(path_of(now, j) == path_of(before, j));
            if j == cur {
                lemma_segments_injective(k, key);
            } else {
                assert(before[j].is_key);
                assert(j < start.len());
                assert(same_node(before[j], start[j]));
                assert(start[j].is_key && path_of(start, j) == segments(k));
            }
        }
    }
}

/// Whether `item` shows one child of the node that `parent` leads to,
/// with all that is below it.
spec fn item_fits(item: TreeItem, keys: Set<Seq<char>>, parent: Seq<Seq<char>>) -> bool {
    &&& has_node(keys, parent.push(item.label@))
    &&& item.id@ == full_path(parent.push(item.label@))
    &&& is_display(entries_of(item.children@), keys, parent.push(item.label@))
}

/// Every node is where its path leads to from the root.
proof fn lemma_walk_reaches(trie: KeyTrie, c: int)
    requires
        trie.wf(),
        0 <= c < trie.nodes@.len(),
    ensures
        trie.walk(path_of(trie.nodes@, c)) == Some(c),
    decreases c,
{
    let nodes = trie.nodes@;
    if c > 0 {
        lemma_path_step(nodes, c);
        let p = nodes[c].parent as int;
        lemma_walk_reaches(trie, p);
        let path = path_of(nodes, c);
        assert(path.drop_last() =~= path_of(nodes, p));
        assert(path.last() == nodes[c].label@);
    }
}

/// Where a path leads to a place, that place is a node with that path.
proof fn lemma_walk_leads(trie: KeyTrie, path: Seq<Seq<char>>)
    requires
        trie.wf(),
    ensures
        trie.walk(path) matches Some(i) ==> 0 <= i < trie.nodes@.len() && path_of(trie.nodes@, i)
            == path,
    decreases path.len(),
{
    let nodes = trie.nodes@;
    if path.len() > 0 {
        lemma_walk_leads(trie, path.drop_last());
        match trie.walk(path.drop_last()) {
            Some(i) => {
                if 0 <= i < nodes.len() && links(nodes[i].children).contains_key(path.last()) {
                    assert(link_ok(nodes, i, path.last()));
                    let c = links(nodes[i].children)[path.last()] as int;
                    lemma_path_step(nodes, c);
                    assert(path_of(nodes, i).push(path.last()) =~= path);
                }
            },
            None => {},
        }
    }
}

/// Where the first `n` segments lead nowhere, the whole path leads
/// nowhere.
proof fn lemma_walk_stops(trie: KeyTrie, path: Seq<Seq<char>>, n: int)
    requires
        0 <= n <= path.len(),
        trie.walk(path.take(n)) is None,
    ensures
        trie.walk(path.take(path.len() as int)) is None,
    decreases path.len() - n,
{
    if n < path.len() {
        assert(path.take(n + 1).drop_last() =~= path.take(n));
        lemma_walk_stops(trie, path, n + 1);
    }
}

/// Every node but the root lies on the way to a key.
proof fn lemma_node_in_keys(trie: KeyTrie, c: int)
    requires
        trie.wf(),
        1 <= c < trie.nodes@.len(),
    ensures
        has_node(trie.keys(), path_of(trie.nodes@, c)),
        trie.nodes@[c].is_key ==> trie.keys().contains(joined(path_of(trie.nodes@, c))),
{
    let nodes = trie.nodes@;
    let j = lemma_key_below(nodes, c);
    lemma_path_step(nodes, j);
    lemma_path_step(nodes, c);
    lemma_path_texts(nodes, j);
    let k = joined(path_of(nodes, j));
    lemma_segments_join(path_of(nodes, j));
    assert(is_marked_path(nodes, segments(k)));
    assert(trie.keys().contains(k));
    if nodes[c].is_key {
        lemma_path_texts(nodes, c);
        lemma_segments_join(path_of(nodes, c));
        assert(is_marked_path(nodes, segments(joined(path_of(nodes, c)))));
    }
}

/// Every path that the segments of a key begin with, the empty one aside,
/// leads to a node.
proof fn lemma_key_path_is_node(trie: KeyTrie, path: Seq<Seq<char>>)
    requires
        trie.wf(),
        has_node(trie.keys(), path),
    ensures
        is_node_path(trie.nodes@, path),
{
    let nodes = trie.nodes@;
    let k = choose|k: Seq<char>| trie.keys().contains(k) && path.is_prefix_of(#[trigger] segments(k));
    let j = choose|j: int|
        1 <= j < nodes.len() && nodes[j].is_key && #[trigger] path_of(nodes, j) == segments(k);
    lemma_prefix_is_node(nodes, j, path);
}

/// A child that the keys call for is in the map of its parent.
proof fn lemma_child_is_linked(trie: KeyTrie, at: int, s: Seq<char>)
    requires
        trie.wf(),
        0 <= at < trie.nodes@.len(),
        has_node(trie.keys(), path_of(trie.nodes@, at).push(s)),
    ensures
        links(trie.nodes@[at].children).contains_key(s),
{
    let nodes = trie.nodes@;
    let path = path_of(nodes, at).push(s);
    lemma_key_path_is_node(trie, path);
    let c = choose|c: int| 1 <= c < nodes.len() && #[trigger] path_of(nodes, c) == path;
    lemma_path_step(nodes, c);
    let p = nodes[c].parent as int;
    let step = path_of(nodes, p).push(nodes[c].label@);
    assert(step.drop_last() =~= path_of(nodes, p));
    assert(path.drop_last() =~= path_of(nodes, at));
    assert(step.last() == nodes[c].label@);
    assert(path.last() == s);
    lemma_paths_differ(nodes, p, at);
}

/// Two children of one node with different short names have different
/// full paths.
proof fn lemma_ids_differ(parent: Seq<Seq<char>>, a: Seq<char>, b: Seq<char>)
    requires
        a != b,
    ensures
        full_path(parent.push(a)) != full_path(parent.push(b)),
{
    let up = full_path(parent);
    assert(parent.push(a).drop_last() =~= parent);
    assert(parent.push(b).drop_last() =~= parent);
    let x = child_path(up, a);
    let y = child_path(up, b);
    if up.len() > 0 && x == y {
        assert(x.subrange(up.len() as int + 1, x.len() as int) =~= a);
        assert(y.subrange(up.len() as int + 1, y.len() as int) =~= b);
    }
}

/// Sorting the entries that show the children of a node, one entry for
/// each child, gives what is shown below that node.
proof fn lemma_display_sorted(
    unsorted: Seq<TreeItem>,
    sorted: Seq<TreeItem>,
    keys: Set<Seq<char>>,
    parent: Seq<Seq<char>>,
)
    requires
        sorted.to_multiset() == unsorted.to_multiset(),
        forall|n: int| 0 <= n < unsorted.len() ==> item_fits(#[trigger] unsorted[n], keys, parent),
        forall|s: Seq<char>|
            has_node(keys, #[trigger] parent.push(s)) ==> exists|n: int|
                0 <= n < unsorted.len() && (#[trigger] unsorted[n]).label@ == s,
        forall|a: int, b: int|
            0 <= a < b < unsorted.len() ==> (#[trigger] unsorted[a]).label@ != (
            #[trigger] unsorted[b]).label@,
        ascending(sorted),
    ensures
        is_display(entries_of(sorted), keys, parent),
{
    broadcast use vstd::seq_lib::group_to_multiset_ensures;

    let shown = entries_of(sorted);
    lemma_entries(sorted);
    assert(unsorted.no_duplicates()) by {
        assert forall|a: int, b: int| 0 <= a < unsorted.len() && 0 <= b < unsorted.len() && a
            != b implies unsorted[a] != unsorted[b] by {
            if a < b {
                assert(unsorted[a].label@ != unsorted[b].label@);
            } else {
                assert(unsorted[b].label@ != unsorted[a].label@);
            }
        }
    }
    unsorted.lemma_multiset_has_no_duplicates();
    sorted.lemma_multiset_has_no_duplicates_conv();
    assert forall|i: int| 0 <= i < sorted.len() implies item_fits(#[trigger] sorted[i], keys, parent) by {
        assert(sorted.contains(sorted[i]));
        assert(unsorted.to_multiset().count(sorted[i]) > 0);
        assert(unsorted.contains(sorted[i]));
        let n = choose|n: int| 0 <= n < unsorted.len() && unsorted[n] == sorted[i];
        assert(item_fits(unsorted[n], keys, parent));
    }
    assert forall|i: int| 0 <= i < shown.len() implies {
        &&& has_node(keys, parent.push((#[trigger] shown[i]).label))
        &&& shown[i].id == full_path(parent.push(shown[i].label))
        &&& is_display(shown[i].children, keys, parent.push(shown[i].label))
    } by {
        assert(item_fits(sorted[i], keys, parent));
        assert(shown[i] == entry_of(sorted[i]));
    }
    assert forall|s: Seq<char>| has_node(keys, #[trigger] parent.push(s)) implies exists|i: int|
        0 <= i < shown.len() && (#[trigger] shown[i]).label == s by {
        let n = choose|n: int| 0 <= n < unsorted.len() && (#[trigger] unsorted[n]).label@ == s;
        assert(unsorted.contains(unsorted[n]));
        assert(sorted.to_multiset().count(unsorted[n]) > 0);
        assert(sorted.contains(unsorted[n]));
        let i = choose|i: int| 0 <= i < sorted.len() && sorted[i] == unsorted[n];
        assert(shown[i] == entry_of(sorted[i]));
        assert(shown[i].label == s);
    }
    assert forall|i: int, j: int| 0 <= i < j < shown.len() implies comes_before(
        #[trigger] shown[i],
        #[trigger] shown[j],
    ) by {
        assert(shown[i] == entry_of(sorted[i]));
        assert(shown[j] == entry_of(sorted[j]));
        assert(!comes_before(entry_of(sorted[j]), entry_of(sorted[i])));
        assert(item_fits(sorted[i], keys, parent));
        assert(item_fits(sorted[j], keys, parent));
        assert(sorted[i] != sorted[j]);
        if sorted[i].label@ == sorted[j].label@ {
            assert(sorted.contains(sorted[i]));
            assert(sorted.contains(sorted[j]));
            assert(unsorted.to_multiset().count(sorted[i]) > 0);
            assert(unsorted.to_multiset().count(sorted[j]) > 0);
            assert(unsorted.contains(sorted[i]));
            assert(unsorted.contains(sorted[j]));
            let a = choose|a: int| 0 <= a < unsorted.len() && unsorted[a] == sorted[i];
            let b = choose|b: int| 0 <= b < unsorted.len() && unsorted[b] == sorted[j];
            if a < b {
                assert(unsorted[a].label@ != unsorted[b].label@);
            } else {
                assert(unsorted[b].label@ != unsorted[a].label@);
            }
        }
        lemma_ids_differ(parent, sorted[i].label@, sorted[j].label@);
        lemma_order_of_entries(shown[i], shown[j], shown[i]);
    }
}

/// Whether the entries stand in order below every parent: these entries
/// among themselves, and below each of them its own.
pub open spec fn in_order(items: Seq<Entry>) -> bool
    decreases items,
{
    &&& forall|i: int, j: int|
        0 <= i < j < items.len() ==> comes_before(#[trigger] items[i], #[trigger] items[j])
    &&& forall|i: int| 0 <= i < items.len() ==> in_order((#[trigger] items[i]).children)
}

/// Of two entries below one parent the one with entries below it stands
/// first where the other has none, and otherwise the one whose full path is
/// first in the order of texts.
pub proof fn lemma_siblings_in_order(
    items: Seq<Entry>,
    keys: Set<Seq<char>>,
    parent: Seq<Seq<char>>,
    i: int,
    j: int,
)
    requires
        is_display(items, keys, parent),
        0 <= i < j < items.len(),
    ensures
        is_folder(items[i]) != is_folder(items[j]) ==> is_folder(items[i]) && !is_folder(items[j]),
        is_folder(items[i]) == is_folder(items[j]) ==> lex_lt(items[i].id, items[j].id),
        items[i].id != items[j].id,
        items[i].label != items[j].label,
{
    assert(comes_before(items[i], items[j]));
    lemma_lex_irreflexive(items[i].id);
    if items[i].label == items[j].label {
        lemma_display_is_unique(
            items[i].children,
            items[j].children,
            keys,
            parent.push(items[i].label),
        );
    }
    lemma_ids_differ(parent, items[i].label, items[j].label);
}

/// What is shown stands in order at every depth.
pub proof fn lemma_display_in_order(items: Seq<Entry>, keys: Set<Seq<char>>, parent: Seq<Seq<char>>)
    requires
        is_display(items, keys, parent),
    ensures
        in_order(items),
    decreases items,
{
    assert forall|i: int| 0 <= i < items.len() implies in_order((#[trigger] items[i]).children) by {
        lemma_display_in_order(items[i].children, keys, parent.push(items[i].label));
    }
}

/// Two lists in strict order that hold the same entries are the same
/// list.
proof fn lemma_same_entries_same_list(a: Seq<Entry>, b: Seq<Entry>)
    requires
        forall|i: int, j: int| 0 <= i < j < a.len() ==> comes_before(#[trigger] a[i], #[trigger] a[j]),
        forall|i: int, j: int| 0 <= i < j < b.len() ==> comes_before(#[trigger] b[i], #[trigger] b[j]),
        forall|i: int| 0 <= i < a.len() ==> b.contains(#[trigger] a[i]),
        forall|j: int| 0 <= j < b.len() ==> a.contains(#[trigger] b[j]),
    ensures
        a == b,
    decreases a.len(),
{
    if a.len() == 0 {
        if b.len() > 0 {
            assert(a.contains(b[0]));
        }
        assert(a =~= b);
    } else {
        assert(b.contains(a.last()));
        let jb = choose|j: int| 0 <= j < b.len() && b[j] == a.last();
        assert(a.contains(b.last()));
        let ia = choose|i: int| 0 <= i < a.len() && a[i] == b.last();
        lemma_order_of_entries(a.last(), b.last(), a.last());
        if a.last() != b.last() {
            assert(comes_before(a[ia], a[a.len() - 1]));
            assert(comes_before(b[jb], b[b.len() - 1]));
        }
        let x = a.drop_last();
        let y = b.drop_last();
        assert forall|i: int| 0 <= i < x.len() implies y.contains(#[trigger] x[i]) by {
            assert(b.contains(a[i]));
            let j = choose|j: int| 0 <= j < b.len() && b[j] == a[i];
            lemma_order_of_entries(a[i], a.last(), a[i]);
            assert(comes_before(a[i], a[a.len() - 1]));
            assert(y[j] == x[i]);
        }
        assert forall|j: int| 0 <= j < y.len() implies x.contains(#[trigger] y[j]) by {
            assert(a.contains(b[j]));
            let i = choose|i: int| 0 <= i < a.len() && a[i] == b[j];
            lemma_order_of_entries(b[j], b.last(), b[j]);
            assert(comes_before(b[j], b[b.len() - 1]));
            assert(x[i] == y[j]);
        }
        assert forall|i: int, j: int| 0 <= i < j < x.len() implies comes_before(
            #[trigger] x[i],
            #[trigger] x[j],
        ) by {
            assert(comes_before(a[i], a[j]));
        }
        assert forall|i: int, j: int| 0 <= i < j < y.len() implies comes_before(
            #[trigger] y[i],
            #[trigger] y[j],
        ) by {
            assert(comes_before(b[i], b[j]));
        }
        lemma_same_entries_same_list(x, y);
        assert(a =~= x.push(a.last()));
        assert(b =~= y.push(b.last()));
    }
}

/// There is one way only to show what a set of keys has below a node:
/// the keys decide the entries, their order and all that is below them.
pub proof fn lemma_display_is_unique(
    a: Seq<Entry>,
    b: Seq<Entry>,
    keys: Set<Seq<char>>,
    parent: Seq<Seq<char>>,
)
    requires
        is_display(a, keys, parent),
        is_display(b, keys, parent),
    ensures
        a == b,
    decreases a,
{
    assert forall|i: int| 0 <= i < a.len() implies b.contains(#[trigger] a[i]) by {
        let s = a[i].label;
        assert(has_node(keys, parent.push(s)));
        let j = choose|j: int| 0 <= j < b.len() && (#[trigger] b[j]).label == s;
        lemma_display_is_unique(a[i].children, b[j].children, keys, parent.push(s));
        assert(b[j] == a[i]);
    }
    assert forall|j: int| 0 <= j < b.len() implies a.contains(#[trigger] b[j]) by {
        let s = b[j].label;
        assert(has_node(keys, parent.push(s)));
        let i = choose|i: int| 0 <= i < a.len() && (#[trigger] a[i]).label == s;
        lemma_display_is_unique(a[i].children, b[j].children, keys, parent.push(s));
        assert(a[i] == b[j]);
    }
    lemma_same_entries_same_list(a, b);
}

/// The tree that is shown depends on the set of the keys alone: neither
/// the order in which the keys come nor how often a key comes makes a
/// difference.
pub proof fn lemma_same_keys_same_tree(a: Seq<TreeItem>, b: Seq<TreeItem>, keys: Set<Seq<char>>)
    requires
        display_of(a, keys),
        display_of(b, keys),
    ensures
        entries_of(a) == entries_of(b),
{
    lemma_display_is_unique(entries_of(a), entries_of(b), keys, Seq::empty());
}

/// The set of the keys of a list with one more key.
pub proof fn lemma_key_set_push(keys: Seq<Seq<char>>, key: Seq<char>)
    ensures
        key_set(keys.push(key)) == key_set(keys).insert(key),
{
    let more = keys.push(key);
    assert forall|k: Seq<char>| key_set(more).contains(k) <==> key_set(keys).insert(key).contains(
        k,
    ) by {
        if key_set(more).contains(k) {
            let n = choose|n: int| 0 <= n < more.len() && more[n] == k;
            if n < keys.len() {
                assert(keys[n] == k);
            }
        }
        if key_set(keys).contains(k) {
            let n = choose|n: int| 0 <= n < keys.len() && keys[n] == k;
            assert(more[n] == k);
        }
        if k == key {
            assert(more[keys.len() as int] == k);
        }
    }
    assert(key_set(more) =~= key_set(keys).insert(key));
}

/// Nothing is shown exactly where there is no key.
pub proof fn lemma_display_of_no_keys(items: Seq<TreeItem>, keys: Set<Seq<char>>)
    requires
        display_of(items, keys),
    ensures
        items.len() == 0 <==> keys == Set::<Seq<char>>::empty(),
{
    let shown = entries_of(items);
    lemma_entries(items);
    let root = Seq::<Seq<char>>::empty();
    if items.len() > 0 {
        assert(has_node(keys, root.push(shown[0].label)));
    }
    if keys != Set::<Seq<char>>::empty() {
        assert(!(keys =~= Set::<Seq<char>>::empty()));
        let k = choose|k: Seq<char>| keys.contains(k);
        lemma_segments_shape(k);
        let first = segments(k)[0];
        assert(root.push(first) =~= segments(k).subrange(0, 1));
        assert(has_node(keys, root.push(first)));
    } else {
        if items.len() > 0 {
            assert(has_node(keys, root.push(shown[0].label)));
        }
    }
}

/// A key that comes once more is no new key: the list with one of its keys
/// appended has the set of keys that it had.
pub proof fn lemma_duplicate_is_no_key(keys: Seq<Seq<char>>, i: int)
    requires
        0 <= i < keys.len(),
    ensures
        key_set(keys.push(keys[i])) == key_set(keys),
{
    let more = keys.push(keys[i]);
    assert forall|k: Seq<char>| key_set(more).contains(k) <==> key_set(keys).contains(k) by {
        if key_set(more).contains(k) {
            let n = choose|n: int| 0 <= n < more.len() && more[n] == k;
            if n < keys.len() {
                assert(keys[n] == k);
            } else {
                assert(keys[i] == k);
            }
        }
        if key_set(keys).contains(k) {
            let n = choose|n: int| 0 <= n < keys.len() && keys[n] == k;
            assert(more[n] == k);
        }
    }
    assert(key_set(more) =~= key_set(keys));
}

/// The tree of `keys` as it is shown: the keys are put into a trie, and
/// the trie is turned into entries. There is one entry for every node of
/// the trie below the root, under the entry of its parent; it is identified
/// by the node's full path and labelled with its short name; and below
/// every parent the folders stand before the others, each group in the order
/// of the full paths.
pub fn build_key_tree(keys: &Vec<String>) -> (items: Vec<TreeItem>)
    ensures
        display_of(items@, key_set(keys.deep_view())),
        in_order(entries_of(items@)),
{
    let trie = KeyTrie::build(keys);
    let items = trie.to_tree_items();
    proof {
        lemma_display_in_order(entries_of(items@), key_set(keys.deep_view()), Seq::empty());
    }
    items
}

} // verus!
