//! Keys as paths: a key names its place in the namespaces by the segments
//! between its colons.

use vstd::prelude::*;
use vstd::std_specs::iter::IteratorSpec;
use vstd::string::StringExecFns;

verus! {

/// The character between two segments of a key.
pub const DELIMITER: char = ':';

/// Whether `s` holds no delimiter.
pub open spec fn colon_free(s: Seq<char>) -> bool {
    forall|i: int| 0 <= i < s.len() ==> s[i] != DELIMITER
}

/// The segments of `s`: what stands before, between and after its
/// delimiters, in order. There is one segment more than there are
/// delimiters, so the empty key has the one empty segment.
pub open spec fn segments(s: Seq<char>) -> Seq<Seq<char>>
    decreases s.len(),
{
    if s.len() == 0 {
        seq![Seq::empty()]
    } else {
        let before = segments(s.drop_last());
        if s.last() == DELIMITER {
            before.push(Seq::empty())
        } else {
            before.drop_last().push(before.last().push(s.last()))
        }
    }
}

/// The segments of `path` with a delimiter between each two.
pub open spec fn joined(path: Seq<Seq<char>>) -> Seq<char>
    decreases path.len(),
{
    if path.len() == 0 {
        Seq::empty()
    } else if path.len() == 1 {
        path[0]
    } else {
        joined(path.drop_last()) + seq![DELIMITER] + path.last()
    }
}

/// The full path of a node under a parent whose full path is `parent`:
/// the two with a delimiter between them, or the short name alone where the
/// parent's full path is empty.
pub open spec fn child_path(parent: Seq<char>, label: Seq<char>) -> Seq<char> {
    if parent.len() == 0 {
        label
    } else {
        parent + seq![DELIMITER] + label
    }
}

/// The full path of the node that `path` leads to from the root.
pub open spec fn full_path(path: Seq<Seq<char>>) -> Seq<char>
    decreases path.len(),
{
    if path.len() == 0 {
        Seq::empty()
    } else {
        child_path(full_path(path.drop_last()), path.last())
    }
}

/// Whether every segment of `path` is free of delimiters.
pub open spec fn all_colon_free(path: Seq<Seq<char>>) -> bool {
    forall|i: int| 0 <= i < path.len() ==> colon_free(#[trigger] path[i])
}

/// The order of texts: character by character, by code point, a text
/// before its extensions.
pub open spec fn lex_lt(a: Seq<char>, b: Seq<char>) -> bool
    decreases a.len(),
{
    if b.len() == 0 {
        false
    } else if a.len() == 0 {
        true
    } else if a[0] != b[0] {
        (a[0] as u32) < (b[0] as u32)
    } else {
        lex_lt(a.drop_first(), b.drop_first())
    }
}

/// A key has at least one segment, and no segment holds a delimiter.
pub proof fn lemma_segments_shape(s: Seq<char>)
    ensures
        segments(s).len() >= 1,
        all_colon_free(segments(s)),
    decreases s.len(),
{
    if s.len() > 0 {
        lemma_segments_shape(s.drop_last());
    }
}

/// Joining the segments of a key gives the key back.
pub proof fn lemma_join_segments(s: Seq<char>)
    ensures
        joined(segments(s)) == s,
    decreases s.len(),
{
    if s.len() > 0 {
        let init = s.drop_last();
        lemma_join_segments(init);
        let before = segments(init);
        let now = segments(s);
        if s.last() == DELIMITER {
            assert(now.drop_last() =~= before);
        } else if before.len() > 1 {
            assert(now.drop_last() =~= before.drop_last());
            assert(joined(now) =~= (joined(before.drop_last()) + seq![DELIMITER]
                + before.last()).push(s.last()));
        }
    }
}

/// Two keys with the same segments are the same key.
pub proof fn lemma_segments_injective(a: Seq<char>, b: Seq<char>)
    requires
        segments(a) == segments(b),
    ensures
        a == b,
{
    lemma_join_segments(a);
    lemma_join_segments(b);
}

/// The segments of a text without delimiters: the text itself.
pub proof fn lemma_segments_of_segment(s: Seq<char>)
    requires
        colon_free(s),
    ensures
        segments(s) == seq![s],
    decreases s.len(),
{
    if s.len() == 0 {
        assert(s =~= Seq::empty());
    } else {
        lemma_segments_of_segment(s.drop_last());
        assert(s.drop_last().push(s.last()) =~= s);
    }
}

/// The segments of a text followed by a text without delimiters: the
/// last segment grows by that text.
proof fn lemma_segments_extend(s: Seq<char>, t: Seq<char>)
    requires
        colon_free(t),
    ensures
        segments(s + t) == segments(s).drop_last().push(segments(s).last() + t),
    decreases t.len(),
{
    if t.len() > 0 {
        let init = t.drop_last();
        lemma_segments_extend(s, init);
        assert((s + t).drop_last() =~= s + init);
        assert(segments(s + init).last().push(t.last()) =~= segments(s).last() + t);
    }
}

/// Splitting what was joined gives the path back, where the path is not
/// empty and its segments hold no delimiter.
pub proof fn lemma_segments_join(path: Seq<Seq<char>>)
    requires
        path.len() >= 1,
        all_colon_free(path),
    ensures
        segments(joined(path)) == path,
    decreases path.len(),
{
    if path.len() == 1 {
        lemma_segments_of_segment(path[0]);
    } else {
        let init = path.drop_last();
        assert(all_colon_free(init));
        lemma_segments_join(init);
        let head = joined(init) + seq![DELIMITER];
        assert(head.drop_last() =~= joined(init));
        lemma_segments_extend(head, path.last());
    }
}

/// The full path of a node is the colon-join of the short names on its
/// path from the root, unless the path begins with an empty short name and
/// goes on: below a node whose full path is empty a full path starts
/// without a delimiter.
pub proof fn lemma_full_path_is_join(path: Seq<Seq<char>>)
    requires
        path.len() >= 2 ==> path[0].len() > 0,
    ensures
        full_path(path) == joined(path),
        path.len() >= 1 && path[0].len() > 0 ==> full_path(path).len() > 0,
    decreases path.len(),
{
    if path.len() == 1 {
        assert(full_path(path.drop_last()).len() == 0);
    } else if path.len() > 1 {
        lemma_full_path_is_join(path.drop_last());
    }
}

/// No text comes before itself.
pub proof fn lemma_lex_irreflexive(a: Seq<char>)
    ensures
        !lex_lt(a, a),
    decreases a.len(),
{
    if a.len() > 0 {
        lemma_lex_irreflexive(a.drop_first());
    }
}

/// Of two different texts one comes before the other.
pub proof fn lemma_lex_total(a: Seq<char>, b: Seq<char>)
    ensures
        a == b || lex_lt(a, b) || lex_lt(b, a),
    decreases a.len(),
{
    if a.len() == 0 || b.len() == 0 {
        if a.len() == b.len() {
            assert(a =~= b);
        }
    } else if a[0] == b[0] {
        lemma_lex_total(a.drop_first(), b.drop_first());
        if a.drop_first() == b.drop_first() {
            assert(a =~= seq![a[0]] + a.drop_first());
            assert(b =~= seq![b[0]] + b.drop_first());
        }
    } else {
        vstd::utf8::char_u32_cast(a[0], a[0] as u32);
        vstd::utf8::char_u32_cast(b[0], b[0] as u32);
    }
}

/// A text does not come both before and after another.
pub proof fn lemma_lex_asymmetric(a: Seq<char>, b: Seq<char>)
    requires
        lex_lt(a, b),
    ensures
        !lex_lt(b, a),
    decreases a.len(),
{
    if a.len() > 0 && b.len() > 0 && a[0] == b[0] {
        lemma_lex_asymmetric(a.drop_first(), b.drop_first());
    }
}

/// What comes before a text comes before all that the text comes before.
pub proof fn lemma_lex_transitive(a: Seq<char>, b: Seq<char>, c: Seq<char>)
    requires
        lex_lt(a, b),
        lex_lt(b, c),
    ensures
        lex_lt(a, c),
    decreases a.len(),
{
    if a.len() > 0 && b.len() > 0 && c.len() > 0 && a[0] == b[0] && b[0] == c[0] {
        lemma_lex_transitive(a.drop_first(), b.drop_first(), c.drop_first());
    }
}

/// Appends one character to a text.
///
/// Trusted: this is `String::push` of std, which puts the character at the
/// end of the string and leaves the rest as it is.
#[verifier::external_body]
fn push_char(s: &mut String, c: char)
    ensures
        final(s)@ == old(s)@.push(c),
{
    s.push(c)
}

/// Splits a key at its delimiters.
pub fn split_key(key: &str) -> (parts: Vec<String>)
    ensures
        parts.deep_view() == segments(key@),
        parts.len() >= 1,
{
    let mut parts: Vec<String> = Vec::new();
    let mut part = String::new();
    let ghost done: Seq<char> = Seq::empty();
    for c in it: key.chars()
        invariant
            it.seq() == key@,
            done == key@.take(it.index()),
            parts.deep_view().push(part@) == segments(done),
    {
        proof {
            assert(key@.take(it.index() + 1).drop_last() =~= done);
            done = key@.take(it.index() + 1);
        }
        if c == DELIMITER {
            parts.push(part);
            part = String::new();
        } else {
            push_char(&mut part, c);
        }
    }
    proof {
        assert(key@.take(key@.len() as int) =~= key@);
    }
    parts.push(part);
    parts
}

/// The full path of a node named `label` under a parent whose full path is
/// `parent`.
pub fn child_full_path(parent: &str, label: &str) -> (r: String)
    ensures
        r@ == child_path(parent@, label@),
{
    if parent.is_empty() {
        String::from_str(label)
    } else {
        let mut r = String::from_str(parent);
        r.append(":");
        r.append(label);
        proof {
            reveal_strlit(":");
        }
        r
    }
}

/// Whether `a` and `b` are the same text.
pub fn text_eq(a: &str, b: &str) -> (r: bool)
    ensures
        r == (a@ == b@),
{
    let mut left = a.chars();
    let mut right = b.chars();
    loop
        invariant
            left.obeys_prophetic_iter_laws(),
            right.obeys_prophetic_iter_laws(),
            left.decrease() is Some,
            (a@ == b@) == (left.remaining() == right.remaining()),
        decreases left.decrease()->0,
    {
        broadcast use vstd::string::group_string_axioms;

        let ghost l = left.remaining();
        let ghost r = right.remaining();
        let x = left.next();
        let y = right.next();
        match (x, y) {
            (None, None) => {
                assert(l =~= r);
                return true;
            },
            (Some(ca), Some(cb)) => {
                if ca != cb {
                    return false;
                }
                assert(l =~= seq![ca] + l.drop_first());
                assert(r =~= seq![cb] + r.drop_first());
            },
            _ => {
                return false;
            },
        }
    }
}

/// Whether `a` comes before `b` in the order of texts.
pub fn text_lt(a: &str, b: &str) -> (r: bool)
    ensures
        r == lex_lt(a@, b@),
{
    let mut left = a.chars();
    let mut right = b.chars();
    loop
        invariant
            left.obeys_prophetic_iter_laws(),
            right.obeys_prophetic_iter_laws(),
            left.decrease() is Some,
            lex_lt(a@, b@) == lex_lt(left.remaining(), right.remaining()),
        decreases left.decrease()->0,
    {
        broadcast use vstd::string::group_string_axioms;

        let x = left.next();
        let y = right.next();
        match y {
            None => {
                return false;
            },
            Some(cb) => match x {
                None => {
                    return true;
                },
                Some(ca) => {
                    if ca != cb {
                        return (ca as u32) < (cb as u32);
                    }
                },
            },
        }
    }
}

} // verus!
