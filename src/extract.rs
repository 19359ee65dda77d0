//! Retweet extraction: status URLs in the store, looked up by digest from a
//! log whose lines are `<status url>,<anything>,<digest>`.
use vstd::prelude::*;
use crate::record::{digest_field, has_fields, next_comma, split_record, url_field};
use crate::text::{find_char, from_chars, to_chars};
use crate::tweet::{parse_tweet_url, tweet_url_fields};
use vstd::slice::slice_subrange;

verus! {

/// One extracted row: who retweeted which status of whom.
#[derive(Debug, Clone, PartialEq, Eq)]
pub struct RetweetRow {
    pub author: String,
    pub retweeted_author: String,
    pub status_id: u64,
    pub retweeted_status_id: u64,
}

impl RetweetRow {
    pub open spec fn fields(&self) -> (Seq<char>, Seq<char>, u64, u64) {
        (self.author@, self.retweeted_author@, self.status_id, self.retweeted_status_id)
    }
}

/// The author and status of the last store line with digest `d` whose URL is
/// a status URL.
pub open spec fn status_of_digest(store: Seq<String>, d: Seq<char>) -> Option<(Seq<char>, u64)>
    decreases store.len(),
{
    if store.len() == 0 {
        None
    } else {
        let l = store.last()@;
        if has_fields(l) && digest_field(l) == d && tweet_url_fields(url_field(l)) is Some {
            tweet_url_fields(url_field(l))
        } else {
            status_of_digest(store.drop_last(), d)
        }
    }
}

/// Whether a log line has at least three comma-separated fields.
pub open spec fn has_three_fields(l: Seq<char>) -> bool {
    let c1 = next_comma(l, 0);
    c1 < l.len() && next_comma(l, c1 + 1) < l.len()
}

/// The third comma-separated field of a log line.
pub open spec fn third_field(l: Seq<char>) -> Seq<char> {
    let c2 = next_comma(l, next_comma(l, 0) + 1);
    l.subrange(c2 + 1, next_comma(l, c2 + 1))
}

/// The row that a log line gives, if any: its first field is a status URL
/// and its third the digest of a stored status URL.
pub open spec fn row_of(store: Seq<String>, l: Seq<char>) -> Option<(Seq<char>, Seq<char>, u64, u64)> {
    if has_three_fields(l) && tweet_url_fields(digest_field(l)) is Some
        && status_of_digest(store, third_field(l)) is Some {
        let own = tweet_url_fields(digest_field(l))->Some_0;
        let other = status_of_digest(store, third_field(l))->Some_0;
        Some((own.0, other.0, own.1, other.1))
    } else {
        None
    }
}

/// The rows of a whole log, in order.
pub open spec fn rows_of(store: Seq<String>, log: Seq<String>) -> Seq<(Seq<char>, Seq<char>, u64, u64)>
    decreases log.len(),
{
    if log.len() == 0 {
        Seq::empty()
    } else {
        let rest = rows_of(store, log.drop_last());
        match row_of(store, log.last()@) {
            Some(r) => rest.push(r),
            None => rest,
        }
    }
}

/// The author and status of the last store line with digest `d` whose URL is
/// a status URL.
pub fn find_status(store: &Vec<String>, d: &String) -> (r: Option<(String, u64)>)
    ensures
        r is Some <==> status_of_digest(store@, d@) is Some,
        r is Some ==> r->Some_0.0@ == status_of_digest(store@, d@)->Some_0.0
            && r->Some_0.1 == status_of_digest(store@, d@)->Some_0.1,
{
    let mut n: usize = store.len();
    assert(store@.take(n as int) =~= store@);
    while n > 0
        invariant
            n <= store@.len(),
            status_of_digest(store@, d@) == status_of_digest(store@.take(n as int), d@),
        decreases n,
    {
        let ghost t = store@.take(n as int);
        assert(t.drop_last() =~= store@.take(n - 1));
        assert(t.last() == store@[n - 1]);
        if let Some((digest, url)) = split_record(store[n - 1].as_str()) {
            if digest == *d {
                if let Some(fields) = parse_tweet_url(url.as_str()) {
                    return Some(fields);
                }
            }
        }
        n = n - 1;
    }
    None
}

/// The first and third comma-separated fields of a line, if it has three.
pub fn first_and_third(line: &str) -> (r: Option<(String, String)>)
    ensures
        r is Some <==> has_three_fields(line@),
        r is Some ==> r->Some_0.0@ == digest_field(line@) && r->Some_0.1@ == third_field(line@),
{
    let v = to_chars(line);
    let c1 = find_char(&v, 0, ',');
    if c1 >= v.len() {
        return None;
    }
    let c2 = find_char(&v, c1 + 1, ',');
    if c2 >= v.len() {
        return None;
    }
    let c3 = find_char(&v, c2 + 1, ',');
    let first = from_chars(slice_subrange(v.as_slice(), 0, c1));
    let third = from_chars(slice_subrange(v.as_slice(), c2 + 1, c3));
    Some((first, third))
}

/// The row that one log line gives against the store, if any.
pub fn retweet_row(store: &Vec<String>, line: &str) -> (r: Option<RetweetRow>)
    ensures
        r is Some <==> row_of(store@, line@) is Some,
        r is Some ==> r->Some_0.fields() == row_of(store@, line@)->Some_0,
{
    match first_and_third(line) {
        Some((url, digest)) => match parse_tweet_url(url.as_str()) {
            Some((author, status_id)) => match find_status(store, &digest) {
                Some((retweeted_author, retweeted_status_id)) => Some(
                    RetweetRow { author, retweeted_author, status_id, retweeted_status_id },
                ),
                None => None,
            },
            None => None,
        },
        None => None,
    }
}

/// The rows of a whole log against the store, in the order of the log.
pub fn retweet_rows(store: &Vec<String>, log: &Vec<String>) -> (r: Vec<RetweetRow>)
    ensures
        r@.map_values(|x: RetweetRow| x.fields()) == rows_of(store@, log@),
{
    let mut r: Vec<RetweetRow> = Vec::new();
    let mut n: usize = 0;
    while n < log.len()
        invariant
            n <= log@.len(),
            r@.map_values(|x: RetweetRow| x.fields()) == rows_of(store@, log@.take(n as int)),
        decreases log.len() - n,
    {
        let ghost t = log@.take(n + 1);
        assert(t.drop_last() =~= log@.take(n as int));
        assert(t.last() == log@[n as int]);
        let ghost before = r@;
        match retweet_row(store, log[n].as_str()) {
            Some(row) => {
                r.push(row);
                assert(r@.map_values(|x: RetweetRow| x.fields()) =~= before.map_values(
                    |x: RetweetRow| x.fields(),
                ).push(row_of(store@, log@[n as int]@)->Some_0));
            },
            None => {},
        }
        n = n + 1;
    }
    assert(log@.take(n as int) =~= log@);
    r
}

} // verus!
