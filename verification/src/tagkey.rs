//! The key under which intervals are grouped: their tags in sorted order.
//!
//! Texts are ordered as `str` orders them: character by character, by code
//! point, a proper prefix before what it is a prefix of.

use crate::text::{texts, to_chars};
use vstd::prelude::*;
use vstd::relations::{sorted_by, total_ordering};
use vstd::seq_lib::lemma_sorted_unique;

verus! {

/// Whether `a` comes before `b` in dictionary order, or equals it.
pub open spec fn text_le(a: Seq<char>, b: Seq<char>) -> bool
    decreases a.len(),
{
    if a.len() == 0 {
        true
    } else if b.len() == 0 {
        false
    } else if a[0] != b[0] {
        (a[0] as u32) < (b[0] as u32)
    } else {
        text_le(a.drop_first(), b.drop_first())
    }
}

/// `text_le` as a relation.
pub open spec fn text_order() -> spec_fn(Seq<char>, Seq<char>) -> bool {
    |a: Seq<char>, b: Seq<char>| text_le(a, b)
}

/// The tags in dictionary order, equal tags kept as often as they occur.
pub open spec fn sorted_tags(tags: Seq<Seq<char>>) -> Seq<Seq<char>> {
    tags.sort_by(text_order())
}

/// Different characters have different code points.
pub proof fn lemma_code_points_differ(a: char, b: char)
    requires
        a != b,
    ensures
        (a as u32) != (b as u32),
{
}

pub proof fn lemma_text_le_reflexive(a: Seq<char>)
    ensures
        text_le(a, a),
    decreases a.len(),
{
    if a.len() > 0 {
        lemma_text_le_reflexive(a.drop_first());
    }
}

pub proof fn lemma_text_le_antisymmetric(a: Seq<char>, b: Seq<char>)
    requires
        text_le(a, b),
        text_le(b, a),
    ensures
        a == b,
    decreases a.len(),
{
    if a.len() == 0 || b.len() == 0 {
        assert(a =~= b);
    } else {
        lemma_text_le_antisymmetric(a.drop_first(), b.drop_first());
        assert(a =~= seq![a[0]] + a.drop_first());
        assert(b =~= seq![b[0]] + b.drop_first());
    }
}

pub proof fn lemma_text_le_transitive(a: Seq<char>, b: Seq<char>, c: Seq<char>)
    requires
        text_le(a, b),
        text_le(b, c),
    ensures
        text_le(a, c),
    decreases a.len(),
{
    if a.len() > 0 && a[0] == b[0] && b[0] == c[0] {
        lemma_text_le_transitive(a.drop_first(), b.drop_first(), c.drop_first());
    }
}

pub proof fn lemma_text_le_total(a: Seq<char>, b: Seq<char>)
    ensures
        text_le(a, b) || text_le(b, a),
    decreases a.len(),
{
    if a.len() > 0 && b.len() > 0 {
        if a[0] == b[0] {
            lemma_text_le_total(a.drop_first(), b.drop_first());
        } else {
            lemma_code_points_differ(a[0], b[0]);
        }
    }
}

/// Dictionary order is a total order.
pub proof fn lemma_text_order_total()
    ensures
        total_ordering(text_order()),
{
    let r = text_order();
    assert forall|x: Seq<char>| #[trigger] r(x, x) by {
        lemma_text_le_reflexive(x);
    }
    assert forall|x: Seq<char>, y: Seq<char>| #[trigger] r(x, y) && #[trigger] r(y, x) implies x
        == y by {
        lemma_text_le_antisymmetric(x, y);
    }
    assert forall|x: Seq<char>, y: Seq<char>, z: Seq<char>| #[trigger]
        r(x, y) && #[trigger] r(y, z) implies r(x, z) by {
        lemma_text_le_transitive(x, y, z);
    }
    assert forall|x: Seq<char>, y: Seq<char>| #[trigger] r(x, y) || #[trigger] r(y, x) by {
        lemma_text_le_total(x, y);
    }
}

/// The sorted tags are sorted and hold each tag as often as the tags do.
pub proof fn lemma_sorted_tags(tags: Seq<Seq<char>>)
    ensures
        sorted_by(sorted_tags(tags), text_order()),
        sorted_tags(tags).to_multiset() == tags.to_multiset(),
        sorted_tags(tags).len() == tags.len(),
{
    broadcast use vstd::seq_lib::group_to_multiset_ensures;

    lemma_text_order_total();
    tags.lemma_sort_by_ensures(text_order());
    tags.to_multiset_ensures();
    sorted_tags(tags).to_multiset_ensures();
}

/// Tags that differ only in the order in which they were written have the
/// same key.
pub proof fn lemma_key_ignores_tag_order(a: Seq<Seq<char>>, b: Seq<Seq<char>>)
    requires
        a.to_multiset() == b.to_multiset(),
    ensures
        sorted_tags(a) == sorted_tags(b),
{
    lemma_sorted_tags(a);
    lemma_sorted_tags(b);
    lemma_text_order_total();
    lemma_sorted_unique(sorted_tags(a), sorted_tags(b), text_order());
}

/// A sorted sequence with the same tags as `tags` is the key of `tags`.
pub proof fn lemma_sorted_is_key(tags: Seq<Seq<char>>, s: Seq<Seq<char>>)
    requires
        sorted_by(s, text_order()),
        s.to_multiset() == tags.to_multiset(),
    ensures
        s == sorted_tags(tags),
{
    lemma_sorted_tags(tags);
    lemma_text_order_total();
    lemma_sorted_unique(s, sorted_tags(tags), text_order());
}

/// Compares two texts in dictionary order.
pub fn chars_le(a: &Vec<char>, b: &Vec<char>) -> (r: bool)
    ensures
        r == text_le(a@, b@),
{
    let mut i: usize = 0;
    proof {
        assert(a@.skip(0) =~= a@);
        assert(b@.skip(0) =~= b@);
    }
    while i < a.len() && i < b.len()
        invariant
            i <= a.len(),
            i <= b.len(),
            text_le(a@, b@) == text_le(a@.skip(i as int), b@.skip(i as int)),
        decreases a.len() - i,
    {
        proof {
            assert(a@.skip(i as int).drop_first() =~= a@.skip(i + 1));
            assert(b@.skip(i as int).drop_first() =~= b@.skip(i + 1));
        }
        if a[i] != b[i] {
            return (a[i] as u32) < (b[i] as u32);
        }
        i += 1;
    }
    i == a.len()
}

/// Compares two texts in dictionary order.
pub fn str_le(a: &str, b: &str) -> (r: bool)
    ensures
        r == text_le(a@, b@),
{
    let x = to_chars(a);
    let y = to_chars(b);
    chars_le(&x, &y)
}

/// The key of `tags`: copies of the tags, in dictionary order.
pub fn sort_tags(tags: &Vec<String>) -> (r: Vec<String>)
    ensures
        texts(r@) == sorted_tags(texts(tags@)),
{
    broadcast use vstd::seq_lib::group_to_multiset_ensures;

    let mut out: Vec<String> = Vec::new();
    let mut i: usize = 0;
    assert(texts(tags@).take(0) =~= texts(out@));
    while i < tags.len()
        invariant
            i <= tags.len(),
            sorted_by(texts(out@), text_order()),
            texts(out@).to_multiset() == texts(tags@).take(i as int).to_multiset(),
        decreases tags.len() - i,
    {
        let tag = &tags[i];
        let mut p: usize = 0;
        while p < out.len() && str_le(out[p].as_str(), tag.as_str())
            invariant
                p <= out.len(),
                forall|k: int| 0 <= k < p ==> text_le(#[trigger] texts(out@)[k], tag@),
            decreases out.len() - p,
        {
            p += 1;
        }
        proof {
            let before = texts(out@);
            let after = before.insert(p as int, tag@);
            assert(texts(out@.insert(p as int, *tag)) =~= after);
            assert(texts(tags@).take(i + 1) =~= texts(tags@).take(i as int).push(tag@));
            vstd::seq_lib::to_multiset_insert(before, p as int, tag@);
            vstd::seq_lib::to_multiset_build(texts(tags@).take(i as int), tag@);
            assert forall|x: int, y: int| 0 <= x < y < after.len() implies text_le(
                #[trigger] after[x],
                #[trigger] after[y],
            ) by {
                if y == p {
                } else if x == p {
                    // Everything from `p` on is above the tag.
                    let next = before[p as int];
                    lemma_text_le_total(next, tag@);
                    assert(text_order()(before[p as int], before[y - 1]) || y - 1 == p);
                    lemma_text_le_reflexive(next);
                    lemma_text_le_transitive(tag@, next, before[y - 1]);
                } else {
                    let bx = if x < p { x } else { x - 1 };
                    let by = if y < p { y } else { y - 1 };
                    assert(text_order()(before[bx], before[by]));
                }
            }
        }
        out.insert(p, tag.clone());
        i += 1;
    }
    proof {
        assert(texts(tags@).take(tags.len() as int) =~= texts(tags@));
        lemma_sorted_is_key(texts(tags@), texts(out@));
    }
    out
}

/// Whether two keys hold the same texts in the same order.
pub fn same_key(a: &Vec<String>, b: &Vec<String>) -> (r: bool)
    ensures
        r == (texts(a@) == texts(b@)),
{
    if a.len() != b.len() {
        assert(texts(a@).len() != texts(b@).len());
        return false;
    }
    let mut i: usize = 0;
    while i < a.len()
        invariant
            i <= a.len(),
            a.len() == b.len(),
            forall|k: int| 0 <= k < i ==> #[trigger] texts(a@)[k] == texts(b@)[k],
        decreases a.len() - i,
    {
        if a[i] != b[i] {
            assert(texts(a@)[i as int] != texts(b@)[i as int]);
            return false;
        }
        i += 1;
    }
    assert(texts(a@) =~= texts(b@));
    true
}

} // verus!
