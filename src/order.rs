//! Ordering of keyed entries, largest key first.

use vstd::prelude::*;
use vstd::seq_lib::{to_multiset_build, to_multiset_contains, to_multiset_insert};

verus! {

/// Keys never grow along `s`.
pub open spec fn descending(s: Seq<(i64, usize)>) -> bool {
    forall|a: int, b: int| 0 <= a < b < s.len() ==> s[a].0 >= s[b].0
}

/// The same entries as `v`, largest key first; entries with equal keys keep
/// their order.
pub fn sort_desc(v: &Vec<(i64, usize)>) -> (r: Vec<(i64, usize)>)
    ensures
        r@.to_multiset() == v@.to_multiset(),
        r@.len() == v@.len(),
        descending(r@),
{
    let mut out: Vec<(i64, usize)> = Vec::new();
    let mut i: usize = 0;
    assert(v@.subrange(0, 0) =~= out@);
    while i < v.len()
        invariant
            i <= v@.len(),
            out@.len() == i,
            out@.to_multiset() == v@.subrange(0, i as int).to_multiset(),
            descending(out@),
        decreases v@.len() - i,
    {
        let x = v[i];
        let mut pos: usize = 0;
        while pos < out.len() && out[pos].0 >= x.0
            invariant
                pos <= out@.len(),
                forall|k: int| 0 <= k < pos ==> out@[k].0 >= x.0,
            decreases out@.len() - pos,
        {
            pos = pos + 1;
        }
        let ghost before = out@;
        out.insert(pos, x);
        assert(v@.subrange(0, i + 1) =~= v@.subrange(0, i as int).push(x));
        assert(out@ == before.insert(pos as int, x));
        proof {
            to_multiset_insert(before, pos as int, x);
            to_multiset_build(v@.subrange(0, i as int), x);
        }
        assert forall|a: int, b: int| 0 <= a < b < out@.len() implies out@[a].0 >= out@[b].0 by {
            if a < pos && b == pos {
            } else if a == pos && b > pos {
                assert(out@[b] == before[b - 1]);
                assert(descending(before));
                if b - 1 > pos {
                    assert(before[pos as int].0 >= before[b - 1].0);
                }
            } else if b < pos {
            } else if a > pos {
                assert(out@[a] == before[a - 1] && out@[b] == before[b - 1]);
            } else {
                assert(out@[b] == before[b - 1]);
            }
        }
        i = i + 1;
    }
    assert(v@.subrange(0, i as int) =~= v@);
    out
}

/// Entries numbered by position, once reordered, still name each position
/// once and carry its key.
pub proof fn lemma_reordered_positions<K>(keyed: Seq<(K, usize)>, sorted: Seq<(K, usize)>)
    requires
        sorted.to_multiset() == keyed.to_multiset(),
        forall|j: int| 0 <= j < keyed.len() ==> (#[trigger] keyed[j]).1 == j,
    ensures
        forall|k: int| 0 <= k < sorted.len() ==> (#[trigger] sorted[k]).1 < keyed.len()
            && sorted[k] == keyed[sorted[k].1 as int],
        forall|j: int| 0 <= j < keyed.len() ==> sorted.contains(#[trigger] keyed[j]),
{
    assert forall|k: int| 0 <= k < sorted.len() implies (#[trigger] sorted[k]).1 < keyed.len()
        && sorted[k] == keyed[sorted[k].1 as int] by {
        to_multiset_contains(sorted, sorted[k]);
        to_multiset_contains(keyed, sorted[k]);
        assert(sorted.contains(sorted[k]));
        let j = choose|j: int| 0 <= j < keyed.len() && keyed[j] == sorted[k];
        assert(keyed[j].1 == j);
    }
    assert forall|j: int| 0 <= j < keyed.len() implies sorted.contains(#[trigger] keyed[j]) by {
        to_multiset_contains(sorted, keyed[j]);
        to_multiset_contains(keyed, keyed[j]);
        assert(keyed.contains(keyed[j]));
    }
}

/// `a` comes before `b` in the order of texts: by code point, a proper
/// prefix first.
pub open spec fn text_lt(a: Seq<char>, b: Seq<char>) -> bool
    decreases a.len(),
{
    if a.len() == 0 {
        b.len() > 0
    } else if b.len() == 0 {
        false
    } else if a[0] != b[0] {
        (a[0] as u32) < (b[0] as u32)
    } else {
        text_lt(a.drop_first(), b.drop_first())
    }
}

pub proof fn lemma_text_lt_irreflexive(a: Seq<char>)
    ensures
        !text_lt(a, a),
    decreases a.len(),
{
    if a.len() > 0 {
        lemma_text_lt_irreflexive(a.drop_first());
    }
}

pub proof fn lemma_text_lt_transitive(a: Seq<char>, b: Seq<char>, c: Seq<char>)
    requires
        text_lt(a, b),
        text_lt(b, c),
    ensures
        text_lt(a, c),
    decreases a.len(),
{
    if a.len() > 0 && b.len() > 0 && c.len() > 0 && a[0] == b[0] && b[0] == c[0] {
        lemma_text_lt_transitive(a.drop_first(), b.drop_first(), c.drop_first());
    }
}

/// Whether `a` comes before `b` in the order of texts.
pub fn text_less(a: &str, b: &str) -> (r: bool)
    ensures
        r == text_lt(a@, b@),
{
    let n = a.unicode_len();
    let m = b.unicode_len();
    let mut i: usize = 0;
    assert(a@.subrange(0, n as int) =~= a@);
    assert(b@.subrange(0, m as int) =~= b@);
    while i < n && i < m && a.get_char(i) == b.get_char(i)
        invariant
            n == a@.len(),
            m == b@.len(),
            i <= n && i <= m,
            text_lt(a@, b@) == text_lt(a@.subrange(i as int, n as int), b@.subrange(i as int, m as int)),
        decreases n - i,
    {
        assert(a@.subrange(i as int, n as int).drop_first() =~= a@.subrange(i + 1, n as int));
        assert(b@.subrange(i as int, m as int).drop_first() =~= b@.subrange(i + 1, m as int));
        i = i + 1;
    }
    if i < n && i < m {
        assert(a@.subrange(i as int, n as int)[0] == a@[i as int]);
        assert(b@.subrange(i as int, m as int)[0] == b@[i as int]);
        (a.get_char(i) as u32) < (b.get_char(i) as u32)
    } else {
        i == n && i < m
    }
}

/// Keys never go back along `s` in the order of texts.
pub open spec fn text_ascending(s: Seq<(String, usize)>) -> bool {
    forall|a: int, b: int| 0 <= a < b < s.len() ==> !text_lt(s[b].0@, s[a].0@)
}

/// The same entries as `v`, in ascending order of their texts.
pub fn sort_text(v: &Vec<(String, usize)>) -> (r: Vec<(String, usize)>)
    ensures
        r@.to_multiset() == v@.to_multiset(),
        r@.len() == v@.len(),
        text_ascending(r@),
{
    let mut out: Vec<(String, usize)> = Vec::new();
    let mut i: usize = 0;
    assert(v@.subrange(0, 0) =~= out@);
    while i < v.len()
        invariant
            i <= v@.len(),
            out@.len() == i,
            out@.to_multiset() == v@.subrange(0, i as int).to_multiset(),
            text_ascending(out@),
        decreases v@.len() - i,
    {
        let x = (v[i].0.clone(), v[i].1);
        assert(x == v@[i as int]);
        let mut pos: usize = 0;
        while pos < out.len() && !text_less(x.0.as_str(), out[pos].0.as_str())
            invariant
                pos <= out@.len(),
                forall|k: int| 0 <= k < pos ==> !text_lt(x.0@, out@[k].0@),
            decreases out@.len() - pos,
        {
            pos = pos + 1;
        }
        let ghost before = out@;
        out.insert(pos, x);
        assert(v@.subrange(0, i + 1) =~= v@.subrange(0, i as int).push(x));
        proof {
            to_multiset_insert(before, pos as int, x);
            to_multiset_build(v@.subrange(0, i as int), x);
        }
        assert forall|a: int, b: int| 0 <= a < b < out@.len() implies !text_lt(out@[b].0@, out@[a].0@) by {
            if a < pos && b == pos {
            } else if a == pos && b > pos {
                assert(out@[b] == before[b - 1]);
                if text_lt(before[b - 1].0@, x.0@) {
                    assert(text_lt(x.0@, before[pos as int].0@));
                    lemma_text_lt_transitive(before[b - 1].0@, x.0@, before[pos as int].0@);
                    if b - 1 == pos {
                        lemma_text_lt_irreflexive(before[pos as int].0@);
                    }
                }
            } else if b < pos {
            } else if a > pos {
                assert(out@[a] == before[a - 1] && out@[b] == before[b - 1]);
            } else {
                assert(out@[b] == before[b - 1]);
            }
        }
        i = i + 1;
    }
    assert(v@.subrange(0, i as int) =~= v@);
    out
}

} // verus!
