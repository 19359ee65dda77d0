//! Merge-insert: new lines enter a shard's sorted content, which keeps its
//! order, loses nothing and gains no duplicate.
use vstd::prelude::*;
use crate::text::{
    compare_chars, lemma_lt_asymmetric, lemma_lt_irreflexive,
    lemma_ascending_pairwise, lemma_lt_transitive, pairwise_ascending, seq_lt, strictly_ascending,
    to_chars,
};

verus! {

broadcast use vstd::seq_lib::group_seq_properties;

/// The character sequences of a list of lines.
pub open spec fn lines_of(v: Seq<String>) -> Seq<Seq<char>> {
    v.map_values(|s: String| s@)
}

/// Whether `r` is the merge of `batch` into `existing`: strictly ascending,
/// holding exactly the lines of both.
pub open spec fn is_merge(existing: Seq<Seq<char>>, batch: Seq<Seq<char>>, r: Seq<Seq<char>>) -> bool {
    &&& pairwise_ascending(r)
    &&& r.to_set() == existing.to_set() + batch.to_set()
}

/// Compares two lines: -1, 0 or 1 as `a` is below, equal to or above `b`.
pub fn compare_lines(a: &String, b: &String) -> (r: i8)
    ensures
        r == -1 || r == 0 || r == 1,
        r == -1 <==> seq_lt(a@, b@),
        r == 0 <==> a@ == b@,
        r == 1 <==> seq_lt(b@, a@),
{
    let x = to_chars(a.as_str());
    let y = to_chars(b.as_str());
    compare_chars(x.as_slice(), y.as_slice())
}

/// Where `x` stands in the ascending list `r`: the number of lines below it,
/// and whether the line there equals it.
fn find_position(r: &Vec<String>, x: &String) -> (res: (usize, bool))
    requires
        pairwise_ascending(lines_of(r@)),
    ensures
        res.0 <= r@.len(),
        forall|k: int| 0 <= k < res.0 ==> seq_lt(#[trigger] r@[k]@, x@),
        res.1 ==> res.0 < r@.len() && r@[res.0 as int]@ == x@,
        !res.1 && res.0 < r@.len() ==> seq_lt(x@, r@[res.0 as int]@),
{
    let mut pos: usize = 0;
    while pos < r.len()
        invariant
            pos <= r@.len(),
            forall|k: int| 0 <= k < pos ==> seq_lt(#[trigger] r@[k]@, x@),
        decreases r.len() - pos,
    {
        let c = compare_lines(&r[pos], x);
        if c == 0 {
            return (pos, true);
        } else if c == 1 {
            return (pos, false);
        }
        pos = pos + 1;
    }
    (pos, false)
}

proof fn lemma_insert_ascending(s: Seq<Seq<char>>, pos: int, x: Seq<char>)
    requires
        0 <= pos <= s.len(),
        pairwise_ascending(s),
        forall|k: int| 0 <= k < pos ==> seq_lt(#[trigger] s[k], x),
        pos < s.len() ==> seq_lt(x, s[pos]),
    ensures
        pairwise_ascending(s.insert(pos, x)),
        s.insert(pos, x).to_set() == s.to_set().insert(x),
{
    let t = s.insert(pos, x);
    s.insert_ensures(pos, x);
    assert forall|i: int, j: int| 0 <= i < j < t.len() implies #[trigger] seq_lt(t[i], t[j]) by {
        if j < pos {
            assert(seq_lt(s[i], s[j]));
        } else if j == pos {
        } else if i < pos {
            assert(t[j] == s[j - 1]);
            if j - 1 > pos {
                assert(seq_lt(s[pos], s[j - 1]));
                lemma_lt_transitive(x, s[pos], s[j - 1]);
            }
            lemma_lt_transitive(s[i], x, s[j - 1]);
        } else if i == pos {
            assert(t[j] == s[j - 1]);
            if j - 1 > pos {
                assert(seq_lt(s[pos], s[j - 1]));
                lemma_lt_transitive(x, s[pos], s[j - 1]);
            }
        } else {
            assert(t[i] == s[i - 1]);
            assert(t[j] == s[j - 1]);
            assert(seq_lt(s[i - 1], s[j - 1]));
        }
    }
    assert forall|y: Seq<char>| t.contains(y) <==> s.contains(y) || y == x by {
        if t.contains(y) {
            let k = choose|k: int| 0 <= k < t.len() && t[k] == y;
            if k < pos {
                assert(s[k] == y);
            } else if k > pos {
                assert(s[k - 1] == y);
            }
        }
        if s.contains(y) {
            let k = choose|k: int| 0 <= k < s.len() && s[k] == y;
            if k < pos {
                assert(t[k] == y);
            } else {
                assert(t[k + 1] == y);
            }
        }
        if y == x {
            assert(t[pos] == y);
        }
    }
    assert(t.to_set() =~= s.to_set().insert(x));
}

/// The distinct lines of `batch`, in ascending order.
pub fn sorted_unique(batch: &Vec<String>) -> (r: Vec<String>)
    ensures
        pairwise_ascending(lines_of(r@)),
        lines_of(r@).to_set() == lines_of(batch@).to_set(),
{
    let mut r: Vec<String> = Vec::new();
    let mut n: usize = 0;
    while n < batch.len()
        invariant
            n <= batch@.len(),
            pairwise_ascending(lines_of(r@)),
            lines_of(r@).to_set() == lines_of(batch@.take(n as int)).to_set(),
        decreases batch.len() - n,
    {
        let x = &batch[n];
        let (pos, found) = find_position(&r, x);
        proof {
            assert(batch@.take(n + 1) =~= batch@.take(n as int).push(batch@[n as int]));
            assert(lines_of(batch@.take(n + 1)) =~= lines_of(batch@.take(n as int)).push(x@));
            lines_of(batch@.take(n as int)).lemma_push_to_set_commute(x@);
        }
        if found {
            proof {
                assert(lines_of(r@)[pos as int] == x@);
                assert(lines_of(r@).to_set().contains(x@));
                assert(lines_of(r@).to_set().insert(x@) =~= lines_of(r@).to_set());
            }
        } else {
            let ghost old_r = r@;
            r.insert(pos, x.clone());
            proof {
                assert(lines_of(r@) =~= lines_of(old_r).insert(pos as int, x@));
                lemma_insert_ascending(lines_of(old_r), pos as int, x@);
            }
        }
        n = n + 1;
    }
    assert(batch@.take(n as int) =~= batch@);
    r
}

/// Merges two ascending lists into one that holds the lines of both, each
/// once: the two lists are walked together, and a line found in both is
/// written once.
pub fn merge_sorted(existing: &Vec<String>, pending: &Vec<String>) -> (r: Vec<String>)
    requires
        pairwise_ascending(lines_of(existing@)),
        pairwise_ascending(lines_of(pending@)),
    ensures
        is_merge(lines_of(existing@), lines_of(pending@), lines_of(r@)),
{
    let ghost e = lines_of(existing@);
    let ghost p = lines_of(pending@);
    let mut out: Vec<String> = Vec::new();
    let mut i: usize = 0;
    let mut j: usize = 0;
    while i < existing.len() || j < pending.len()
        invariant
            e == lines_of(existing@),
            p == lines_of(pending@),
            pairwise_ascending(e),
            pairwise_ascending(p),
            i <= e.len(),
            j <= p.len(),
            pairwise_ascending(lines_of(out@)),
            lines_of(out@).to_set() == e.take(i as int).to_set() + p.take(j as int).to_set(),
            forall|k: int| 0 <= k < out@.len() && i < e.len() ==> seq_lt(#[trigger] out@[k]@, e[i as int]),
            forall|k: int| 0 <= k < out@.len() && j < p.len() ==> seq_lt(#[trigger] out@[k]@, p[j as int]),
        decreases e.len() - i + p.len() - j,
    {
        let ghost old_out = lines_of(out@);
        let c: i8 = if i < existing.len() && j < pending.len() {
            compare_lines(&pending[j], &existing[i])
        } else if i < existing.len() {
            1
        } else {
            -1
        };
        let ghost x: Seq<char>;
        let ghost adv_i: bool = c >= 0;
        let ghost adv_j: bool = c <= 0;
        if c == -1 {
            proof { x = p[j as int]; }
            out.push(pending[j].clone());
        } else {
            proof { x = e[i as int]; }
            out.push(existing[i].clone());
        }
        proof {
            assert(lines_of(out@) =~= old_out.push(x));
            old_out.lemma_push_to_set_commute(x);
            if adv_i {
                assert(e.take(i + 1) =~= e.take(i as int).push(e[i as int]));
                e.take(i as int).lemma_push_to_set_commute(e[i as int]);
            }
            if adv_j {
                assert(p.take(j + 1) =~= p.take(j as int).push(p[j as int]));
                p.take(j as int).lemma_push_to_set_commute(p[j as int]);
            }
            let ni: int = if adv_i { i + 1 } else { i as int };
            let nj: int = if adv_j { j + 1 } else { j as int };
            assert(lines_of(out@).to_set() =~= e.take(ni).to_set() + p.take(nj).to_set());
            // the new line is above all earlier output
            assert forall|a: int, b: int| 0 <= a < b < out@.len() implies #[trigger] seq_lt(lines_of(out@)[a], lines_of(out@)[b]) by {
                if b < old_out.len() {
                    assert(seq_lt(old_out[a], old_out[b]));
                } else {
                    assert(seq_lt(out@[a]@, e[i as int]) || seq_lt(out@[a]@, p[j as int]));
                }
            }
            // the new line is below what is left of either list
            assert forall|k: int| 0 <= k < out@.len() && ni < e.len() implies seq_lt(#[trigger] out@[k]@, e[ni]) by {
                if adv_i {
                    assert(seq_lt(e[i as int], e[ni]));
                    if k < old_out.len() {
                        lemma_lt_transitive(out@[k]@, e[i as int], e[ni]);
                    }
                } else if k == old_out.len() {
                    lemma_lt_asymmetric(p[j as int], e[i as int]);
                }
            }
            assert forall|k: int| 0 <= k < out@.len() && nj < p.len() implies seq_lt(#[trigger] out@[k]@, p[nj]) by {
                if adv_j {
                    assert(seq_lt(p[j as int], p[nj]));
                    if k < old_out.len() {
                        lemma_lt_transitive(out@[k]@, p[j as int], p[nj]);
                    } else if !adv_i {
                    } else {
                        assert(x == p[j as int]);
                    }
                }
            }
        }
        if c >= 0 {
            i = i + 1;
        }
        if c <= 0 {
            j = j + 1;
        }
    }
    assert(e.take(i as int) =~= e);
    assert(p.take(j as int) =~= p);
    out
}

/// Merges a batch of candidate lines into a shard's ascending lines: the
/// batch is sorted and freed of repeats, then merged, a line already present
/// being kept once.
pub fn merge_insert(existing: &Vec<String>, batch: &Vec<String>) -> (r: Vec<String>)
    requires
        pairwise_ascending(lines_of(existing@)),
    ensures
        is_merge(lines_of(existing@), lines_of(batch@), lines_of(r@)),
{
    let pending = sorted_unique(batch);
    merge_sorted(existing, &pending)
}

proof fn lemma_drop_first_set(s: Seq<Seq<char>>)
    requires
        s.len() > 0,
        pairwise_ascending(s),
    ensures
        s.drop_first().to_set() == s.to_set().remove(s[0]),
{
    let t = s.drop_first();
    assert forall|y: Seq<char>| t.contains(y) <==> s.contains(y) && y != s[0] by {
        if t.contains(y) {
            let k = choose|k: int| 0 <= k < t.len() && t[k] == y;
            assert(s[k + 1] == y);
            assert(seq_lt(s[0], s[k + 1]));
            lemma_lt_irreflexive(y);
        }
        if s.contains(y) && y != s[0] {
            let k = choose|k: int| 0 <= k < s.len() && s[k] == y;
            assert(t[k - 1] == y);
        }
    }
    assert(t.to_set() =~= s.to_set().remove(s[0]));
}

/// Two ascending lists with the same lines are the same list.
pub proof fn lemma_ascending_unique(a: Seq<Seq<char>>, b: Seq<Seq<char>>)
    requires
        pairwise_ascending(a),
        pairwise_ascending(b),
        a.to_set() == b.to_set(),
    ensures
        a == b,
    decreases a.len(),
{
    if a.len() == 0 {
        if b.len() > 0 {
            assert(b.to_set().contains(b[0]));
        }
        assert(a =~= b);
    } else if b.len() == 0 {
        assert(a.to_set().contains(a[0]));
    } else {
        assert(b.to_set().contains(a[0]));
        assert(a.to_set().contains(b[0]));
        let k = choose|k: int| 0 <= k < b.len() && b[k] == a[0];
        let m = choose|m: int| 0 <= m < a.len() && a[m] == b[0];
        if a[0] != b[0] {
            assert(k > 0 && m > 0);
            assert(seq_lt(b[0], b[k]));
            assert(seq_lt(a[0], a[m]));
            lemma_lt_asymmetric(a[0], b[0]);
        }
        lemma_drop_first_set(a);
        lemma_drop_first_set(b);
        let a1 = a.drop_first();
        let b1 = b.drop_first();
        assert forall|i: int, j: int| 0 <= i < j < a1.len() implies #[trigger] seq_lt(a1[i], a1[j]) by {
            assert(seq_lt(a[i + 1], a[j + 1]));
        }
        assert forall|i: int, j: int| 0 <= i < j < b1.len() implies #[trigger] seq_lt(b1[i], b1[j]) by {
            assert(seq_lt(b[i + 1], b[j + 1]));
        }
        lemma_ascending_unique(a1, b1);
        assert(a =~= seq![a[0]] + a1);
        assert(b =~= seq![b[0]] + b1);
    }
}

/// Merging the same batch a second time gives back the result of the first.
pub proof fn lemma_merge_idempotent(
    existing: Seq<Seq<char>>,
    batch: Seq<Seq<char>>,
    once: Seq<Seq<char>>,
    twice: Seq<Seq<char>>,
)
    requires
        is_merge(existing, batch, once),
        is_merge(once, batch, twice),
    ensures
        twice == once,
{
    assert(twice.to_set() =~= once.to_set());
    lemma_ascending_unique(twice, once);
}

/// A merge loses no line that was there before it, and keeps every line of
/// the batch.
pub proof fn lemma_merge_keeps_lines(existing: Seq<Seq<char>>, batch: Seq<Seq<char>>, r: Seq<Seq<char>>)
    requires
        is_merge(existing, batch, r),
    ensures
        forall|i: int| 0 <= i < existing.len() ==> r.contains(#[trigger] existing[i]),
        forall|i: int| 0 <= i < batch.len() ==> r.contains(#[trigger] batch[i]),
{
    assert forall|i: int| 0 <= i < existing.len() implies r.contains(#[trigger] existing[i]) by {
        assert(existing.to_set().contains(existing[i]));
        assert(r.to_set().contains(existing[i]));
    }
    assert forall|i: int| 0 <= i < batch.len() implies r.contains(#[trigger] batch[i]) by {
        assert(batch.to_set().contains(batch[i]));
        assert(r.to_set().contains(batch[i]));
    }
}

/// Whether every line is strictly below the next, and so below every later
/// line: what `merge_insert` asks of a shard's lines.
pub fn is_strictly_ascending(lines: &Vec<String>) -> (r: bool)
    ensures
        r == pairwise_ascending(lines_of(lines@)),
        r == strictly_ascending(lines_of(lines@)),
{
    let ghost s = lines_of(lines@);
    let mut n: usize = 1;
    while n < lines.len()
        invariant
            s == lines_of(lines@),
            1 <= n,
            forall|i: int| 0 <= i < n - 1 && i < s.len() - 1 ==> #[trigger] seq_lt(s[i], s[i + 1]),
        decreases lines.len() - n,
    {
        if compare_lines(&lines[n - 1], &lines[n]) != -1 {
            proof {
                let k = n - 1;
                assert(!seq_lt(s[k], s[k + 1]));
            }
            return false;
        }
        n = n + 1;
    }
    proof { lemma_ascending_pairwise(s); }
    true
}

} // verus!
