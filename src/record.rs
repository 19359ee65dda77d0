//! Records: a shard line `<digest>,<url>`, split into its fields.
//!
//! A line is split at commas and only its first two fields are read, so a
//! URL that holds a comma is cut at it. No escaping is applied to URLs.
use vstd::prelude::*;
use crate::text::{find_char, from_chars, next_index_of, to_chars};
use vstd::slice::slice_subrange;

verus! {

/// The index of the first comma in `s` at or after `from`, or the length of
/// `s` if there is none.
pub open spec fn next_comma(s: Seq<char>, from: int) -> int {
    next_index_of(s, from, ',')
}

/// The digest field of a line: what stands before its first comma.
pub open spec fn digest_field(s: Seq<char>) -> Seq<char> {
    s.subrange(0, next_comma(s, 0))
}

/// Whether a line holds a comma, and so both a digest and a URL field.
pub open spec fn has_fields(s: Seq<char>) -> bool {
    next_comma(s, 0) < s.len()
}

/// The URL field of a line: what stands between its first and second comma,
/// or after the first comma where there is no second.
pub open spec fn url_field(s: Seq<char>) -> Seq<char> {
    let c = next_comma(s, 0);
    s.subrange(c + 1, next_comma(s, c + 1))
}

/// The digest field of a line: what stands before its first comma.
pub fn record_digest(line: &str) -> (r: String)
    ensures
        r@ == digest_field(line@),
{
    let v = to_chars(line);
    let c = find_char(&v, 0, ',');
    from_chars(slice_subrange(v.as_slice(), 0, c))
}

/// Splits a line into its digest and URL fields; `None` where it holds no
/// comma.
pub fn split_record(line: &str) -> (r: Option<(String, String)>)
    ensures
        r is Some <==> has_fields(line@),
        r is Some ==> r->Some_0.0@ == digest_field(line@) && r->Some_0.1@ == url_field(line@),
{
    let v = to_chars(line);
    let c = find_char(&v, 0, ',');
    if c >= v.len() {
        return None;
    }
    let e = find_char(&v, c + 1, ',');
    let digest = from_chars(slice_subrange(v.as_slice(), 0, c));
    let url = from_chars(slice_subrange(v.as_slice(), c + 1, e));
    Some((digest, url))
}

} // verus!
