//! The redirect codec: the canonical HTML document that a record's digest
//! is computed over, and the way back from it to the URL.
use vstd::prelude::*;
use crate::text::{from_chars, matches_at, to_chars};

verus! {

/// What the canonical document holds before the URL.
pub const REDIRECT_PREFIX: &'static str = "<html><body>You are being <a href=\"";

/// What the canonical document holds after the URL.
pub const REDIRECT_SUFFIX: &'static str = "\">redirected</a>.</body></html>";

/// The canonical redirect document for `url`.
pub open spec fn redirect_html(url: Seq<char>) -> Seq<char> {
    REDIRECT_PREFIX@ + url + REDIRECT_SUFFIX@
}

/// Whether `s` holds no double quote.
pub open spec fn quote_free(s: Seq<char>) -> bool {
    forall|i: int| 0 <= i < s.len() ==> s[i] != '"'
}

/// The URL of a canonical document: what stands between the fixed prefix
/// and suffix, if that holds no double quote.
pub open spec fn redirect_url_of(doc: Seq<char>) -> Option<Seq<char>> {
    let p = REDIRECT_PREFIX@.len();
    let q = REDIRECT_SUFFIX@.len();
    if doc.len() >= p + q && doc.subrange(0, p as int) == REDIRECT_PREFIX@
        && doc.subrange(doc.len() - q, doc.len() as int) == REDIRECT_SUFFIX@
        && quote_free(doc.subrange(p as int, doc.len() - q)) {
        Some(doc.subrange(p as int, doc.len() - q))
    } else {
        None
    }
}

/// Renders the canonical redirect document for `url`, with no escaping.
pub fn make_redirect_html(url: &str) -> (r: String)
    ensures
        r@ == redirect_html(url@),
{
    let mut v = to_chars(REDIRECT_PREFIX);
    let u = to_chars(url);
    let s = to_chars(REDIRECT_SUFFIX);
    v.extend_from_slice(u.as_slice());
    v.extend_from_slice(s.as_slice());
    from_chars(v.as_slice())
}

/// Extracts the URL from a canonical redirect document; `None` on any
/// departure from the template or a URL with a double quote.
pub fn parse_redirect_html(content: &str) -> (r: Option<String>)
    ensures
        r is Some <==> redirect_url_of(content@) is Some,
        r is Some ==> r->Some_0@ == redirect_url_of(content@)->Some_0,
{
    let doc = to_chars(content);
    let p = to_chars(REDIRECT_PREFIX);
    let s = to_chars(REDIRECT_SUFFIX);
    if doc.len() < p.len() || doc.len() - p.len() < s.len() {
        return None;
    }
    let end = doc.len() - s.len();
    if !matches_at(&doc, 0, &p) || !matches_at(&doc, end, &s) {
        return None;
    }
    let mut url: Vec<char> = Vec::new();
    let mut i: usize = p.len();
    while i < end
        invariant
            p@ == REDIRECT_PREFIX@,
            s@ == REDIRECT_SUFFIX@,
            doc@ == content@,
            doc@.len() >= p@.len() + s@.len(),
            doc@.subrange(0, p@.len() as int) == p@,
            doc@.subrange(end as int, doc@.len() as int) == s@,
            p@.len() <= i <= end,
            end == doc@.len() - REDIRECT_SUFFIX@.len(),
            url@ == doc@.subrange(p@.len() as int, i as int),
            quote_free(url@),
        decreases end - i,
    {
        if doc[i] == '"' {
            assert(doc@.subrange(p@.len() as int, end as int)[i - p@.len()] == '"');
            return None;
        }
        url.push(doc[i]);
        assert(url@ =~= doc@.subrange(p@.len() as int, i + 1));
        i = i + 1;
    }
    Some(from_chars(url.as_slice()))
}

/// Rendering a quote-free URL and parsing the document gives the
/// URL back.
pub proof fn lemma_parse_render(url: Seq<char>)
    requires
        quote_free(url),
    ensures
        redirect_url_of(redirect_html(url)) == Some(url),
{
    let d = redirect_html(url);
    let p = REDIRECT_PREFIX@.len();
    let q = REDIRECT_SUFFIX@.len();
    assert(d.subrange(0, p as int) =~= REDIRECT_PREFIX@);
    assert(d.subrange(d.len() - q, d.len() as int) =~= REDIRECT_SUFFIX@);
    assert(d.subrange(p as int, d.len() - q) =~= url);
}

} // verus!
