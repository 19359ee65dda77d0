//! The digest engine: SHA-1 over a byte string, written in unpadded
//! RFC 4648 base-32.
use vstd::prelude::*;
use sha1::{Digest, Sha1};
use std::io::Read;
use data_encoding::BASE32;
use flate2::read::GzDecoder;
use crate::shard::is_shard_char;

verus! {

/// A SHA-1 state. Verus cannot take in the declaration of sha1's state type
/// (its bounds run through typenum), so it is held here, out of Verus's sight.
#[verifier::external_body]
pub struct Sha1State {
    inner: Sha1,
}

/// The bytes that a SHA-1 state has absorbed since it was created or last reset.
pub uninterp spec fn absorbed(h: Sha1State) -> Seq<u8>;

/// The SHA-1 hash of a byte string.
pub uninterp spec fn sha1_of(b: Seq<u8>) -> Seq<u8>;

/// Relies on `Digest::new` of sha1: a fresh state has absorbed nothing.
#[verifier::external_body]
fn new_hasher() -> (h: Sha1State)
    ensures
        absorbed(h) == Seq::<u8>::empty(),
{
    Sha1State { inner: Sha1::new() }
}

/// Relies on `Digest::update` of sha1: the state absorbs `data` after what it held.
#[verifier::external_body]
fn hasher_update(h: &mut Sha1State, data: &[u8])
    ensures
        absorbed(*final(h)) == absorbed(*old(h)) + data@,
{
    Digest::update(&mut h.inner, data)
}

/// Relies on `Digest::finalize_reset` of sha1: it returns the 20-byte hash of
/// what the state absorbed and resets the state.
#[verifier::external_body]
fn hasher_finalize_reset(h: &mut Sha1State) -> (r: Vec<u8>)
    ensures
        r@ == sha1_of(absorbed(*old(h))),
        r@.len() == 20,
        absorbed(*final(h)) == Seq::<u8>::empty(),
{
    h.inner.finalize_reset().to_vec()
}

/// The text of `b` in RFC 4648 base-32.
pub uninterp spec fn base32_of(b: Seq<u8>) -> Seq<char>;

/// The bytes that gzip data decompresses to, or `None` where it is not
/// well-formed gzip data.
pub uninterp spec fn gunzip_of(b: Seq<u8>) -> Option<Seq<u8>>;

/// Relies on `data_encoding::BASE32.encode`, which panics above
/// `usize::MAX / 512` bytes: each whole group of 5 bytes becomes 8 characters
/// of the alphabet `A`-`Z`, `2`-`7`, so such input needs no padding.
#[verifier::external_body]
fn base32_encode(b: &[u8]) -> (r: String)
    requires
        b@.len() <= usize::MAX / 512,
    ensures
        r@ == base32_of(b@),
        b@.len() % 5 == 0 ==> r@.len() == b@.len() / 5 * 8,
        b@.len() % 5 == 0 ==> forall|i: int| 0 <= i < r@.len() ==> is_shard_char(#[trigger] r@[i]),
{
    BASE32.encode(b)
}

/// Relies on `flate2::read::GzDecoder` read to the end: on success, the
/// decompressed content of the first gzip member of `b`. Reading a slice
/// never fails, so an error comes from the data alone.
#[verifier::external_body]
fn gunzip(b: &[u8]) -> (r: Result<Vec<u8>, std::io::Error>)
    ensures
        (r is Ok) == (gunzip_of(b@) is Some),
        r is Ok ==> r->Ok_0@ == gunzip_of(b@)->Some_0,
{
    let mut out = Vec::new();
    GzDecoder::new(b).read_to_end(&mut out).map(|_| out)
}

#[verifier::external_type_specification]
#[verifier::external_body]
pub struct ExIoError(std::io::Error);

/// The digest text of a byte string: its SHA-1 hash in base-32.
pub open spec fn digest_text(b: Seq<u8>) -> Seq<char> {
    base32_of(sha1_of(b))
}

/// Why a digest could not be computed.
#[derive(Debug, Clone, Copy, PartialEq, Eq)]
pub enum DigestError {
    /// The input was not valid gzip data.
    Decompress,
}

/// The digest text of `input`: 32 characters of the base-32 alphabet, the
/// first of which names the shard.
pub fn compute_digest(input: &[u8]) -> (r: String)
    ensures
        r@ == digest_text(input@),
        r@.len() == 32,
        forall|i: int| 0 <= i < r@.len() ==> is_shard_char(#[trigger] r@[i]),
{
    let mut computer = Computer::new();
    computer.digest(input)
}

/// The digest text of the decompressed content of gzip data.
pub fn compute_digest_gz(input: &[u8]) -> (r: Result<String, DigestError>)
    ensures
        (r is Ok) == (gunzip_of(input@) is Some),
        r is Ok ==> r->Ok_0@ == digest_text(gunzip_of(input@)->Some_0),
        r is Ok ==> r->Ok_0@.len() == 32,
        r is Err ==> r->Err_0 == DigestError::Decompress,
{
    match gunzip(input) {
        Ok(data) => Ok(compute_digest(data.as_slice())),
        Err(_) => Err(DigestError::Decompress),
    }
}

/// A reusable digest computer: one SHA-1 state, reset after every digest.
pub struct Computer {
    hasher: Sha1State,
}

impl Default for Computer {
    fn default() -> (r: Computer)
        ensures
            r.wf(),
    {
        Computer::new()
    }
}

impl Computer {
    pub closed spec fn wf(&self) -> bool {
        absorbed(self.hasher) == Seq::<u8>::empty()
    }

    pub fn new() -> (r: Computer)
        ensures
            r.wf(),
    {
        Computer { hasher: new_hasher() }
    }

    /// The digest text of `input`; the computer is ready for the next input.
    pub fn digest(&mut self, input: &[u8]) -> (r: String)
        requires
            old(self).wf(),
        ensures
            final(self).wf(),
            r@ == digest_text(input@),
            r@.len() == 32,
            forall|i: int| 0 <= i < r@.len() ==> is_shard_char(#[trigger] r@[i]),
    {
        hasher_update(&mut self.hasher, input);
        assert(Seq::<u8>::empty() + input@ =~= input@);
        let hash = hasher_finalize_reset(&mut self.hasher);
        base32_encode(hash.as_slice())
    }
}

} // verus!
