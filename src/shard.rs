//! Shard addressing: which shard a digest belongs to, and the names of the
//! shard files.
use vstd::prelude::*;
use crate::text::{from_chars, matches_at, to_chars};

verus! {

/// The shard identifiers, in ascending order: the digits 2 to 7, then the
/// upper-case letters, the alphabet of unpadded RFC 4648 base-32.
pub open spec fn shard_alphabet() -> Seq<char> {
    seq![
        '2', '3', '4', '5', '6', '7', 'A', 'B', 'C', 'D', 'E', 'F', 'G', 'H', 'I', 'J',
        'K', 'L', 'M', 'N', 'O', 'P', 'Q', 'R', 'S', 'T', 'U', 'V', 'W', 'X', 'Y', 'Z',
    ]
}

/// Whether `c` names a shard.
pub open spec fn is_shard_char(c: char) -> bool {
    ('2' <= c && c <= '7') || ('A' <= c && c <= 'Z')
}

/// The identifiers that `is_shard_char` admits are exactly the 32 symbols
/// of the shard alphabet.
pub proof fn lemma_shard_alphabet(c: char)
    ensures
        is_shard_char(c) <==> shard_alphabet().contains(c),
{
    let a = shard_alphabet();
    assert(a.len() == 32);
    assert(a[0] == '2' && a[1] == '3' && a[2] == '4' && a[3] == '5' && a[4] == '6' && a[5] == '7');
    assert(a[6] == 'A' && a[7] == 'B' && a[8] == 'C' && a[9] == 'D' && a[10] == 'E' && a[11] == 'F');
    assert(a[12] == 'G' && a[13] == 'H' && a[14] == 'I' && a[15] == 'J' && a[16] == 'K' && a[17] == 'L');
    assert(a[18] == 'M' && a[19] == 'N' && a[20] == 'O' && a[21] == 'P' && a[22] == 'Q' && a[23] == 'R');
    assert(a[24] == 'S' && a[25] == 'T' && a[26] == 'U' && a[27] == 'V' && a[28] == 'W' && a[29] == 'X');
    assert(a[30] == 'Y' && a[31] == 'Z');
    assert forall|i: int| 0 <= i < 32 implies is_shard_char(#[trigger] a[i]) by {}
    if is_shard_char(c) {
        let i: int = if c <= '7' { (c as int) - ('2' as int) } else { (c as int) - ('A' as int) + 6 };
        assert(0 <= i < 32);
        assert(a[i] == c);
    }
}

/// Whether `c` names a shard: one of the 32 symbols `2`-`7`, `A`-`Z`.
pub fn is_valid_shard_id(c: char) -> (r: bool)
    ensures
        r == is_shard_char(c),
{
    ('2' <= c && c <= '7') || ('A' <= c && c <= 'Z')
}

/// What a shard file name holds before the shard identifier.
pub const FILE_NAME_PREFIX: &'static str = "redirects-";

/// What a shard file name holds after the shard identifier.
pub const FILE_NAME_SUFFIX: &'static str = ".csv";

/// The file name of shard `id`: `redirects-<id>.csv`.
pub open spec fn shard_file_name_of(id: char) -> Seq<char> {
    FILE_NAME_PREFIX@ + seq![id] + FILE_NAME_SUFFIX@
}

/// Whether `name` is the file name of a shard.
pub open spec fn is_shard_file_name(name: Seq<char>) -> bool {
    let p = FILE_NAME_PREFIX@.len() as int;
    &&& name.len() == p + 1 + FILE_NAME_SUFFIX@.len()
    &&& name.take(p) == FILE_NAME_PREFIX@
    &&& is_shard_char(name[p])
    &&& name.skip(p + 1) == FILE_NAME_SUFFIX@
}

/// The final component of a path, where it has one.
pub uninterp spec fn file_name_of(path: Seq<char>) -> Option<Seq<char>>;

/// Relies on `std::path::Path::file_name`: the final component of the path,
/// if there is one; from a `str` it is always valid UTF-8.
#[verifier::external_body]
fn path_file_name(path: &str) -> (r: Option<String>)
    ensures
        (r is Some) == (file_name_of(path@) is Some),
        r is Some ==> r->Some_0@ == file_name_of(path@)->Some_0,
{
    std::path::Path::new(path).file_name().and_then(|n| n.to_str()).map(|n| n.to_string())
}

/// The shard that a digest belongs to: its first character, if it has one.
pub fn shard_id(digest: &str) -> (r: Option<char>)
    ensures
        r is Some <==> digest@.len() > 0,
        r is Some ==> r->Some_0 == digest@[0],
{
    let v = to_chars(digest);
    if v.len() == 0 {
        None
    } else {
        Some(v[0])
    }
}

/// The file name of shard `id`: `redirects-<id>.csv`.
pub fn shard_file_name(id: char) -> (r: String)
    ensures
        r@ == shard_file_name_of(id),
{
    let mut v = to_chars(FILE_NAME_PREFIX);
    v.push(id);
    let s = to_chars(FILE_NAME_SUFFIX);
    v.extend_from_slice(s.as_slice());
    from_chars(v.as_slice())
}

/// Whether `name` is `redirects-<id>.csv` for a shard identifier `id`.
pub fn is_valid_file_name(name: &str) -> (r: bool)
    ensures
        r == is_shard_file_name(name@),
{
    let v = to_chars(name);
    let p = to_chars(FILE_NAME_PREFIX);
    let s = to_chars(FILE_NAME_SUFFIX);
    if p.len() >= v.len() || v.len() - p.len() - 1 != s.len() {
        return false;
    }
    let at = p.len() + 1;
    let r = matches_at(&v, 0, &p) && is_valid_shard_id(v[p.len()]) && matches_at(&v, at, &s);
    proof {
        assert(v@.subrange(0, p@.len() as int) =~= v@.take(p@.len() as int));
        assert(v@.subrange(at as int, at + s@.len()) =~= v@.skip(at as int));
    }
    r
}

/// Whether the final component of `path` is the file name of a shard.
pub fn is_valid_path(path: &str) -> (r: bool)
    ensures
        r == (file_name_of(path@) is Some && is_shard_file_name(file_name_of(path@)->Some_0)),
{
    match path_file_name(path) {
        Some(name) => is_valid_file_name(name.as_str()),
        None => false,
    }
}

/// The shard identifiers, in ascending order.
pub fn shard_ids() -> (r: Vec<char>)
    ensures
        r@ == shard_alphabet(),
{
    let ids: Vec<char> = vec![
        '2', '3', '4', '5', '6', '7', 'A', 'B', 'C', 'D', 'E', 'F', 'G', 'H', 'I', 'J',
        'K', 'L', 'M', 'N', 'O', 'P', 'Q', 'R', 'S', 'T', 'U', 'V', 'W', 'X', 'Y', 'Z',
    ];
    assert(ids@ =~= shard_alphabet());
    ids
}

/// The shard identifiers as one-character strings, in ascending order.
pub fn file_prefixes() -> (r: Vec<String>)
    ensures
        r@.len() == 32,
        forall|i: int| 0 <= i < 32 ==> #[trigger] r@[i]@ == seq![shard_alphabet()[i]],
{
    let ids = shard_ids();
    let mut r: Vec<String> = Vec::new();
    let mut i: usize = 0;
    while i < ids.len()
        invariant
            ids@ == shard_alphabet(),
            i <= 32,
            r@.len() == i,
            forall|k: int| 0 <= k < i ==> #[trigger] r@[k]@ == seq![shard_alphabet()[k]],
        decreases 32 - i,
    {
        let one: Vec<char> = vec![ids[i]];
        assert(one@ =~= seq![shard_alphabet()[i as int]]);
        r.push(from_chars(one.as_slice()));
        i = i + 1;
    }
    r
}

} // verus!
