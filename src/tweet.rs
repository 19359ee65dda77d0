//! Status URLs of the form `http(s)://twitter.com/<author>/status/<id>[?query]`.
use vstd::prelude::*;
use crate::text::{find_char, from_chars, matches_at, next_index_of, to_chars};
use vstd::slice::slice_subrange;

verus! {

pub const HTTP_SCHEME: &'static str = "http://";

pub const HTTPS_SCHEME: &'static str = "https://";

pub const STATUS_HOST: &'static str = "twitter.com/";

pub const STATUS_PATH: &'static str = "/status/";

/// Whether `u` holds `p` at index `at`.
pub open spec fn holds_at(u: Seq<char>, at: int, p: Seq<char>) -> bool {
    0 <= at && at + p.len() <= u.len() && u.subrange(at, at + p.len()) == p
}

/// Where the scheme of `u` ends, or -1 if it is neither `http://` nor `https://`.
pub open spec fn scheme_end(u: Seq<char>) -> int {
    if holds_at(u, 0, HTTP_SCHEME@) {
        HTTP_SCHEME@.len() as int
    } else if holds_at(u, 0, HTTPS_SCHEME@) {
        HTTPS_SCHEME@.len() as int
    } else {
        -1
    }
}

pub open spec fn is_ascii_digit(c: char) -> bool {
    '0' <= c && c <= '9'
}

/// The number that a string of decimal digits writes.
pub open spec fn digits_value(s: Seq<char>) -> nat
    decreases s.len(),
{
    if s.len() == 0 {
        0
    } else {
        digits_value(s.drop_last()) * 10 + ((s.last() as int) - ('0' as int)) as nat
    }
}

/// The author and status number of a status URL: the scheme is `http://` or
/// `https://`, the host `twitter.com`, the author a non-empty segment
/// without `/`, then `/status/` and a non-empty run of ASCII digits whose
/// value fits in a `u64`, then nothing, or `?` and a non-empty query with no
/// line feed.
pub open spec fn tweet_url_fields(u: Seq<char>) -> Option<(Seq<char>, u64)> {
    let h = scheme_end(u);
    let a0 = h + STATUS_HOST@.len();
    let s = next_index_of(u, a0, '/');
    let d0 = s + STATUS_PATH@.len();
    let q = next_index_of(u, d0, '?');
    let digits = u.subrange(d0, q);
    if h >= 0 && holds_at(u, h, STATUS_HOST@) && s > a0 && holds_at(u, s, STATUS_PATH@)
        && digits.len() > 0 && (forall|i: int| 0 <= i < digits.len() ==> is_ascii_digit(#[trigger] digits[i]))
        && digits_value(digits) <= u64::MAX
        && (q == u.len() || (q + 1 < u.len() && (forall|i: int| q < i < u.len() ==> #[trigger] u[i] != '\n'))) {
        Some((u.subrange(a0, s), digits_value(digits) as u64))
    } else {
        None
    }
}

proof fn lemma_value_grows(s: Seq<char>, k: int)
    requires
        0 <= k <= s.len(),
        forall|i: int| 0 <= i < s.len() ==> is_ascii_digit(#[trigger] s[i]),
    ensures
        digits_value(s.take(k)) <= digits_value(s),
    decreases s.len() - k,
{
    if k < s.len() {
        lemma_value_grows(s, k + 1);
        assert(s.take(k + 1).drop_last() =~= s.take(k));
        assert(is_ascii_digit(s[k]));
    } else {
        assert(s.take(k) =~= s);
    }
}

/// The value of a run of ASCII digits, where it fits in a `u64`.
fn parse_digits(v: &Vec<char>, from: usize, to: usize) -> (r: Option<u64>)
    requires
        from <= to <= v@.len(),
        forall|i: int| from <= i < to ==> is_ascii_digit(#[trigger] v@[i]),
    ensures
        r is Some <==> digits_value(v@.subrange(from as int, to as int)) <= u64::MAX,
        r is Some ==> r->Some_0 == digits_value(v@.subrange(from as int, to as int)),
{
    let ghost d = v@.subrange(from as int, to as int);
    let mut acc: u64 = 0;
    let mut k: usize = from;
    while k < to
        invariant
            from <= k <= to <= v@.len(),
            d == v@.subrange(from as int, to as int),
            forall|i: int| from <= i < to ==> is_ascii_digit(#[trigger] v@[i]),
            acc == digits_value(d.take(k - from)),
        decreases to - k,
    {
        let ghost t = d.take(k - from + 1);
        assert(t.drop_last() =~= d.take(k - from));
        assert(t.last() == v@[k as int]);
        let c = v[k];
        assert(is_ascii_digit(c));
        let digit: u64 = (c as u32 - '0' as u32) as u64;
        if acc > (u64::MAX - digit) / 10 {
            proof {
                assert(acc * 10 + digit > u64::MAX) by (nonlinear_arith)
                    requires acc > (u64::MAX - digit) / 10, digit <= 9;
                assert(d.len() == to - from);
                lemma_value_grows(d, k - from + 1);
            }
            return None;
        }
        assert(acc * 10 + digit <= u64::MAX) by (nonlinear_arith)
            requires acc <= (u64::MAX - digit) / 10, digit <= 9;
        acc = acc * 10 + digit;
        k = k + 1;
    }
    assert(d.take(to - from) =~= d);
    Some(acc)
}

/// Whether `v` holds only ASCII digits from `from` up to `to`.
fn all_digits(v: &Vec<char>, from: usize, to: usize) -> (r: bool)
    requires
        from <= to <= v@.len(),
    ensures
        r == forall|j: int| from <= j < to ==> is_ascii_digit(#[trigger] v@[j]),
        r == forall|j: int| 0 <= j < to - from ==> is_ascii_digit(#[trigger] v@.subrange(from as int, to as int)[j]),
{
    let mut i: usize = from;
    while i < to
        invariant
            from <= i <= to <= v@.len(),
            forall|j: int| from <= j < i ==> is_ascii_digit(#[trigger] v@[j]),
        decreases to - i,
    {
        if !('0' <= v[i] && v[i] <= '9') {
            assert(!is_ascii_digit(v@.subrange(from as int, to as int)[i - from]));
            return false;
        }
        i = i + 1;
    }
    assert forall|j: int| 0 <= j < to - from implies is_ascii_digit(#[trigger] v@.subrange(from as int, to as int)[j]) by {
        assert(v@.subrange(from as int, to as int)[j] == v@[from + j]);
    }
    true
}

/// Whether `v` holds no line feed from `from` on.
fn no_line_feed(v: &Vec<char>, from: usize) -> (r: bool)
    requires
        from <= v@.len(),
    ensures
        r == forall|j: int| from <= j < v@.len() ==> #[trigger] v@[j] != '\n',
{
    let mut i: usize = from;
    while i < v.len()
        invariant
            from <= i <= v@.len(),
            forall|j: int| from <= j < i ==> #[trigger] v@[j] != '\n',
        decreases v.len() - i,
    {
        if v[i] == '\n' {
            return false;
        }
        i = i + 1;
    }
    true
}

/// Reads the author and status number out of a status URL; `None` where the
/// URL has another shape or the number does not fit in a `u64`.
pub fn parse_tweet_url(url: &str) -> (r: Option<(String, u64)>)
    ensures
        r is Some <==> tweet_url_fields(url@) is Some,
        r is Some ==> r->Some_0.0@ == tweet_url_fields(url@)->Some_0.0
            && r->Some_0.1 == tweet_url_fields(url@)->Some_0.1,
{
    let u = to_chars(url);
    let http = to_chars(HTTP_SCHEME);
    let https = to_chars(HTTPS_SCHEME);
    let host = to_chars(STATUS_HOST);
    let status = to_chars(STATUS_PATH);
    let h: usize = if http.len() <= u.len() && matches_at(&u, 0, &http) {
        http.len()
    } else if https.len() <= u.len() && matches_at(&u, 0, &https) {
        https.len()
    } else {
        return None;
    };
    if host.len() > u.len() - h || !matches_at(&u, h, &host) {
        return None;
    }
    let a0 = h + host.len();
    let s = find_char(&u, a0, '/');
    if s == a0 || status.len() > u.len() - s || !matches_at(&u, s, &status) {
        return None;
    }
    let d0 = s + status.len();
    let q = find_char(&u, d0, '?');
    if q == d0 {
        return None;
    }
    if !all_digits(&u, d0, q) {
        return None;
    }
    if q < u.len() && (q + 1 == u.len() || !no_line_feed(&u, q + 1)) {
        return None;
    }
    match parse_digits(&u, d0, q) {
        Some(id) => {
            let author = from_chars(slice_subrange(u.as_slice(), a0, s));
            Some((author, id))
        },
        None => None,
    }
}

} // verus!
