//! Character sequences: conversion to and from `String`, and the
//! lexicographic order in which shard lines are kept.
use vstd::prelude::*;

verus! {

/// Relies on `str::chars`: it yields the characters of the string in order.
#[verifier::external_body]
pub(crate) fn to_chars(s: &str) -> (r: Vec<char>)
    ensures
        r@ == s@,
{
    s.chars().collect()
}

/// Relies on `String: FromIterator<char>`: it concatenates the characters in order.
#[verifier::external_body]
pub(crate) fn from_chars(v: &[char]) -> (r: String)
    ensures
        r@ == v@,
{
    v.iter().collect()
}

/// Strict lexicographic order on character sequences, comparing characters
/// by code point. It agrees with the order of `str` in Rust, which compares
/// UTF-8 bytes, since UTF-8 keeps the order of code points.
pub open spec fn seq_lt(a: Seq<char>, b: Seq<char>) -> bool
    decreases a.len(),
{
    if a.len() == 0 {
        b.len() > 0
    } else if b.len() == 0 {
        false
    } else if a[0] != b[0] {
        a[0] < b[0]
    } else {
        seq_lt(a.drop_first(), b.drop_first())
    }
}

pub proof fn lemma_lt_irreflexive(a: Seq<char>)
    ensures
        !seq_lt(a, a),
    decreases a.len(),
{
    if a.len() > 0 {
        lemma_lt_irreflexive(a.drop_first());
    }
}

pub proof fn lemma_lt_asymmetric(a: Seq<char>, b: Seq<char>)
    ensures
        !(seq_lt(a, b) && seq_lt(b, a)),
    decreases a.len(),
{
    if a.len() > 0 && b.len() > 0 && a[0] == b[0] {
        lemma_lt_asymmetric(a.drop_first(), b.drop_first());
    }
}

pub proof fn lemma_lt_transitive(a: Seq<char>, b: Seq<char>, c: Seq<char>)
    requires
        seq_lt(a, b),
        seq_lt(b, c),
    ensures
        seq_lt(a, c),
    decreases a.len(),
{
    if a.len() > 0 && b.len() > 0 && c.len() > 0 && a[0] == b[0] && b[0] == c[0] {
        lemma_lt_transitive(a.drop_first(), b.drop_first(), c.drop_first());
    }
}

/// Whether each element of `s` is strictly below the next one.
pub open spec fn strictly_ascending(s: Seq<Seq<char>>) -> bool {
    forall|i: int| 0 <= i < s.len() - 1 ==> #[trigger] seq_lt(s[i], s[i + 1])
}

/// Whether every element of `s` is strictly below every later one.
pub open spec fn pairwise_ascending(s: Seq<Seq<char>>) -> bool {
    forall|i: int, j: int| 0 <= i < j < s.len() ==> #[trigger] seq_lt(s[i], s[j])
}

pub proof fn lemma_ascending_pairwise(s: Seq<Seq<char>>)
    requires
        strictly_ascending(s),
    ensures
        pairwise_ascending(s),
    decreases s.len(),
{
    if s.len() > 1 {
        let t = s.drop_last();
        assert(strictly_ascending(t)) by {
            assert forall|i: int| 0 <= i < t.len() - 1 implies #[trigger] seq_lt(t[i], t[i + 1]) by {
                assert(seq_lt(s[i], s[i + 1]));
            }
        }
        lemma_ascending_pairwise(t);
        assert forall|i: int, j: int| 0 <= i < j < s.len() implies #[trigger] seq_lt(s[i], s[j]) by {
            if j < s.len() - 1 {
                assert(seq_lt(t[i], t[j]));
            } else if i < j - 1 {
                let k = j - 1;
                assert(seq_lt(t[i], t[k]));
                assert(seq_lt(s[k], s[k + 1]));
                lemma_lt_transitive(s[i], s[k], s[j]);
            } else {
                let k = j - 1;
                assert(seq_lt(s[k], s[k + 1]));
            }
        }
    }
}

/// Compares two character sequences: -1, 0 or 1 as `a` is below, equal to
/// or above `b`.
pub fn compare_chars(a: &[char], b: &[char]) -> (r: i8)
    ensures
        r == -1 || r == 0 || r == 1,
        r == -1 <==> seq_lt(a@, b@),
        r == 0 <==> a@ == b@,
        r == 1 <==> seq_lt(b@, a@),
{
    let mut k: usize = 0;
    assert(a@.skip(0) =~= a@);
    assert(b@.skip(0) =~= b@);
    while k < a.len() && k < b.len() && a[k] == b[k]
        invariant
            k <= a.len(),
            k <= b.len(),
            a@.subrange(0, k as int) == b@.subrange(0, k as int),
            seq_lt(a@, b@) == seq_lt(a@.skip(k as int), b@.skip(k as int)),
            seq_lt(b@, a@) == seq_lt(b@.skip(k as int), a@.skip(k as int)),
        decreases a.len() - k,
    {
        assert(a@.skip(k as int).drop_first() =~= a@.skip(k + 1));
        assert(b@.skip(k as int).drop_first() =~= b@.skip(k + 1));
        assert(a@.subrange(0, k + 1) =~= a@.subrange(0, k as int).push(a[k as int]));
        assert(b@.subrange(0, k + 1) =~= b@.subrange(0, k as int).push(b[k as int]));
        k = k + 1;
    }
    proof {
        lemma_lt_asymmetric(a@, b@);
        lemma_lt_irreflexive(a@);
    }
    if k < a.len() && k < b.len() {
        assert(a@ != b@ ) by {
            assert(a@[k as int] != b@[k as int]);
        }
        if a[k] < b[k] {
            -1
        } else {
            1
        }
    } else if k < a.len() {
        assert(b@.skip(k as int).len() == 0);
        assert(a@ != b@ ) by { assert(a@.len() != b@.len()); }
        1
    } else if k < b.len() {
        assert(a@.skip(k as int).len() == 0);
        assert(a@ != b@ ) by { assert(a@.len() != b@.len()); }
        -1
    } else {
        assert(a@ =~= a@.subrange(0, k as int));
        assert(b@ =~= b@.subrange(0, k as int));
        0
    }
}

/// Whether `a` starts with `b` at `at`.
pub fn matches_at(a: &Vec<char>, at: usize, b: &Vec<char>) -> (r: bool)
    requires
        at + b@.len() <= a@.len(),
    ensures
        r == (a@.subrange(at as int, at + b@.len()) == b@),
{
    let alen = a.len();
    let mut k: usize = 0;
    while k < b.len()
        invariant
            alen == a@.len(),
            at + b@.len() <= a@.len(),
            k <= b@.len(),
            a@.subrange(at as int, at + k) == b@.subrange(0, k as int),
        decreases b.len() - k,
    {
        if a[at + k] != b[k] {
            assert(a@.subrange(at as int, at + b@.len())[k as int] != b@[k as int]);
            return false;
        }
        assert(a@.subrange(at as int, at + k + 1) =~= a@.subrange(at as int, at + k).push(a@[at + k]));
        assert(b@.subrange(0, k + 1) =~= b@.subrange(0, k as int).push(b@[k as int]));
        k = k + 1;
    }
    assert(b@.subrange(0, k as int) =~= b@);
    true
}

/// The index of the first `c` in `s` at or after `from`, or the length of `s`
/// if there is none.
pub open spec fn next_index_of(s: Seq<char>, from: int, c: char) -> int
    decreases s.len() - from,
{
    if from >= s.len() {
        s.len() as int
    } else if s[from] == c {
        from
    } else {
        next_index_of(s, from + 1, c)
    }
}

pub proof fn lemma_next_index_bounds(s: Seq<char>, from: int, c: char)
    requires
        0 <= from <= s.len(),
    ensures
        from <= next_index_of(s, from, c) <= s.len(),
        next_index_of(s, from, c) < s.len() ==> s[next_index_of(s, from, c)] == c,
    decreases s.len() - from,
{
    if from < s.len() && s[from] != c {
        lemma_next_index_bounds(s, from + 1, c);
    }
}

/// Where `s` holds no `c` from `from` up to `to`, the search from `from`
/// gives the search from `to`.
pub proof fn lemma_next_index_skip(s: Seq<char>, from: int, to: int, c: char)
    requires
        0 <= from <= to <= s.len(),
        forall|k: int| from <= k < to ==> s[k] != c,
    ensures
        next_index_of(s, from, c) == next_index_of(s, to, c),
    decreases to - from,
{
    if from < to {
        lemma_next_index_skip(s, from + 1, to, c);
    }
}

/// The index of the first `c` in `s` at or after `from`, or its length.
pub fn find_char(s: &Vec<char>, from: usize, c: char) -> (r: usize)
    requires
        from <= s@.len(),
    ensures
        r == next_index_of(s@, from as int, c),
        from <= r <= s@.len(),
{
    proof { lemma_next_index_bounds(s@, from as int, c); }
    let mut k: usize = from;
    while k < s.len() && s[k] != c
        invariant
            from <= k <= s@.len(),
            next_index_of(s@, from as int, c) == next_index_of(s@, k as int, c),
        decreases s.len() - k,
    {
        k = k + 1;
    }
    k
}

} // verus!
