//! The store as a whole: candidate lines grouped by shard for ingestion, and
//! the checks on the set of shard files.
use vstd::prelude::*;
use crate::shard::{
    file_name_of, is_shard_file_name, is_valid_path, is_valid_shard_id, lemma_shard_alphabet,
    shard_alphabet, shard_id, shard_ids,
};

verus! {

broadcast use vstd::seq_lib::group_seq_properties;

/// The number of shards in a store.
pub const SHARD_COUNT: usize = 32;

/// Whether line `l` belongs to shard `id`: it starts with that character.
pub open spec fn line_in_shard(l: Seq<char>, id: char) -> bool {
    l.len() > 0 && l[0] == id
}

/// Whether line `l` starts with a shard identifier.
pub open spec fn has_shard_prefix(l: Seq<char>) -> bool {
    l.len() > 0 && shard_alphabet().contains(l[0])
}

/// The lines of `lines` that belong to shard `id`, in order.
pub open spec fn shard_lines(lines: Seq<String>, id: char) -> Seq<String> {
    lines.filter(|l: String| line_in_shard(l@, id))
}

/// Whether the final component of `path` is a shard file name.
pub open spec fn path_is_valid(path: Seq<char>) -> bool {
    file_name_of(path) is Some && is_shard_file_name(file_name_of(path)->Some_0)
}

/// The paths of `paths` that do not name a shard file, in order.
pub open spec fn invalid_paths(paths: Seq<String>) -> Seq<String> {
    paths.filter(|p: String| !path_is_valid(p@))
}

/// Whether `line` starts with a shard identifier.
pub fn has_valid_prefix(line: &str) -> (r: bool)
    ensures
        r == has_shard_prefix(line@),
{
    match shard_id(line) {
        Some(c) => {
            proof { lemma_shard_alphabet(c); }
            is_valid_shard_id(c)
        },
        None => false,
    }
}

/// The lines of `lines` that belong to shard `id`, in order.
pub fn lines_of_shard(lines: &Vec<String>, id: char) -> (r: Vec<String>)
    ensures
        r@ == shard_lines(lines@, id),
{
    let mut r: Vec<String> = Vec::new();
    let mut n: usize = 0;
    while n < lines.len()
        invariant
            n <= lines@.len(),
            r@ == shard_lines(lines@.take(n as int), id),
        decreases lines.len() - n,
    {
        proof {
            assert(lines@.take(n + 1) =~= lines@.take(n as int).push(lines@[n as int]));
            lines@.take(n as int).lemma_filter_push(lines@[n as int], |l: String| line_in_shard(l@, id));
        }
        if shard_id(lines[n].as_str()) == Some(id) {
            r.push(lines[n].clone());
        }
        n = n + 1;
    }
    assert(lines@.take(n as int) =~= lines@);
    r
}

/// Groups candidate lines by shard, one group per identifier in ascending
/// order. The first line that does not start with a shard identifier is
/// returned as the error, and rejects the whole batch.
pub fn group_by_shard(lines: &Vec<String>) -> (r: Result<Vec<Vec<String>>, String>)
    ensures
        r is Ok <==> forall|i: int| 0 <= i < lines@.len() ==> has_shard_prefix(#[trigger] lines@[i]@),
        r is Ok ==> r->Ok_0@.len() == 32,
        r is Ok ==> forall|k: int| 0 <= k < 32 ==> #[trigger] r->Ok_0@[k]@ == shard_lines(lines@, shard_alphabet()[k]),
        r is Err ==> exists|i: int| 0 <= i < lines@.len() && lines@[i] == r->Err_0
            && !has_shard_prefix(#[trigger] lines@[i]@)
            && forall|j: int| 0 <= j < i ==> has_shard_prefix(#[trigger] lines@[j]@),
{
    let mut n: usize = 0;
    while n < lines.len()
        invariant
            n <= lines@.len(),
            forall|j: int| 0 <= j < n ==> has_shard_prefix(#[trigger] lines@[j]@),
        decreases lines.len() - n,
    {
        if !has_valid_prefix(lines[n].as_str()) {
            return Err(lines[n].clone());
        }
        n = n + 1;
    }
    let ids = shard_ids();
    let mut groups: Vec<Vec<String>> = Vec::new();
    let mut k: usize = 0;
    while k < ids.len()
        invariant
            ids@ == shard_alphabet(),
            k <= 32,
            groups@.len() == k,
            forall|m: int| 0 <= m < k ==> #[trigger] groups@[m]@ == shard_lines(lines@, shard_alphabet()[m]),
        decreases 32 - k,
    {
        groups.push(lines_of_shard(lines, ids[k]));
        k = k + 1;
    }
    Ok(groups)
}

/// Checks the entries of a shard directory: whether there are exactly 32 of
/// them, and those whose file name is not a shard's.
pub fn check_store(paths: &Vec<String>) -> (r: (bool, Vec<String>))
    ensures
        r.0 == (paths@.len() == SHARD_COUNT),
        r.1@ == invalid_paths(paths@),
{
    let mut bad: Vec<String> = Vec::new();
    let mut n: usize = 0;
    while n < paths.len()
        invariant
            n <= paths@.len(),
            bad@ == invalid_paths(paths@.take(n as int)),
        decreases paths.len() - n,
    {
        proof {
            assert(paths@.take(n + 1) =~= paths@.take(n as int).push(paths@[n as int]));
            paths@.take(n as int).lemma_filter_push(paths@[n as int], |p: String| !path_is_valid(p@));
        }
        if !is_valid_path(paths[n].as_str()) {
            bad.push(paths[n].clone());
        }
        n = n + 1;
    }
    assert(paths@.take(n as int) =~= paths@);
    (paths.len() == SHARD_COUNT, bad)
}

} // verus!
