//! The shard validator: re-derives each record's digest from its URL, and
//! checks that the lines are strictly ascending.
use vstd::prelude::*;
use vstd::utf8::encode_utf8;
use crate::codec::{make_redirect_html, redirect_html};
use crate::digest::{digest_text, Computer};
use crate::merge::{compare_lines, lines_of};
use crate::record::{digest_field, has_fields, split_record, url_field};
use crate::shard::is_shard_char;
use crate::text::{lemma_next_index_skip, next_index_of, strictly_ascending};

verus! {

broadcast use vstd::seq_lib::group_seq_properties;

/// The digest text that a record with URL `url` must carry: that of the
/// UTF-8 bytes of its canonical redirect document.
pub open spec fn url_digest(url: Seq<char>) -> Seq<char> {
    digest_text(encode_utf8(redirect_html(url)))
}

/// Whether a line is a sound record: it has both fields, and its digest field
/// is the digest of its URL field.
pub open spec fn line_is_valid(s: Seq<char>) -> bool {
    has_fields(s) && digest_field(s) == url_digest(url_field(s))
}

/// The lines of `lines` that are not sound records, in order.
pub open spec fn invalid_lines(lines: Seq<String>) -> Seq<String> {
    lines.filter(|l: String| !line_is_valid(l@))
}

/// Whether `line` is a sound record, computing its digest with `computer`.
pub fn validate_line(computer: &mut Computer, line: &str) -> (r: bool)
    requires
        old(computer).wf(),
    ensures
        final(computer).wf(),
        r == line_is_valid(line@),
{
    match split_record(line) {
        Some((digest, url)) => {
            let content = make_redirect_html(url.as_str());
            let computed = computer.digest(content.as_str().as_bytes());
            digest == computed
        },
        None => false,
    }
}

/// Validates a shard's lines: the lines that are not sound records, in
/// order, and whether every line is strictly below the next.
pub fn validate(lines: &Vec<String>) -> (r: (Vec<String>, bool))
    ensures
        r.0@ == invalid_lines(lines@),
        r.1 == strictly_ascending(lines_of(lines@)),
{
    let mut computer = Computer::new();
    let mut bad: Vec<String> = Vec::new();
    let mut is_sorted = true;
    let mut n: usize = 0;
    while n < lines.len()
        invariant
            computer.wf(),
            n <= lines@.len(),
            bad@ == invalid_lines(lines@.take(n as int)),
            is_sorted == strictly_ascending(lines_of(lines@.take(n as int))),
        decreases lines.len() - n,
    {
        let line = &lines[n];
        let ghost before = lines@.take(n as int);
        proof {
            assert(lines@.take(n + 1) =~= before.push(*line));
            before.lemma_filter_push(*line, |l: String| !line_is_valid(l@));
            assert(lines_of(lines@.take(n + 1)) =~= lines_of(before).push(line@));
        }
        if n > 0 && compare_lines(&lines[n - 1], line) != -1 {
            is_sorted = false;
            proof {
                let s = lines_of(lines@.take(n + 1));
                let k = n - 1;
                assert(!crate::text::seq_lt(s[k], s[k + 1]));
            }
        } else {
            proof {
                let s = lines_of(lines@.take(n + 1));
                let t = lines_of(before);
                if is_sorted {
                    assert forall|i: int| 0 <= i < s.len() - 1 implies #[trigger] crate::text::seq_lt(s[i], s[i + 1]) by {
                        if i < n - 1 {
                            assert(crate::text::seq_lt(t[i], t[i + 1]));
                        }
                    }
                } else {
                    let i = choose|i: int| 0 <= i < t.len() - 1 && !#[trigger] crate::text::seq_lt(t[i], t[i + 1]);
                    assert(s[i] == t[i] && s[i + 1] == t[i + 1]);
                }
            }
        }
        if !validate_line(&mut computer, line.as_str()) {
            bad.push(line.clone());
        }
        n = n + 1;
    }
    assert(lines@.take(n as int) =~= lines@);
    (bad, is_sorted)
}

/// A line made of a digest in the base-32 alphabet, a comma, and a URL
/// without commas is a sound record exactly when the digest is the URL's.
pub proof fn lemma_record_line(d: Seq<char>, url: Seq<char>)
    requires
        forall|i: int| 0 <= i < d.len() ==> is_shard_char(#[trigger] d[i]),
        forall|i: int| 0 <= i < url.len() ==> #[trigger] url[i] != ',',
    ensures
        line_is_valid(d + seq![','] + url) == (d == url_digest(url)),
{
    let l = d + seq![','] + url;
    let n: int = d.len() as int;
    assert forall|k: int| 0 <= k < n implies l[k] != ',' by {
        assert(l[k] == d[k]);
        assert(is_shard_char(d[k]));
    }
    lemma_next_index_skip(l, 0, n, ',');
    assert(l[n] == ',');
    assert(next_index_of(l, n, ',') == n);
    assert forall|k: int| n + 1 <= k < l.len() implies l[k] != ',' by {
        assert(l[k] == url[k - n - 1]);
    }
    lemma_next_index_skip(l, n + 1, l.len() as int, ',');
    assert(next_index_of(l, l.len() as int, ',') == l.len());
    assert(l.subrange(0, n) =~= d);
    assert(l.subrange(n + 1, l.len() as int) =~= url);
}

} // verus!
