//! Fixed-width hash values and the hash function that joins two of them.

use sha2::Digest;
use vstd::prelude::*;

verus! {

/// A hash value: the content of one tree node.
pub type Hash32 = [u8; 32];

/// The SHA-256 digest of a byte string: 32 bytes.
pub uninterp spec fn sha256_digest(data: Seq<u8>) -> [u8; 32];

/// Calls `sha2::Sha256::digest` (the one-shot form of `sha2::Digest`) on `data`.
/// Trusted: the 32 bytes returned are the SHA-256 digest of `data`, which
/// `sha256_digest` names.
#[verifier::external_body]
fn sha256(data: &[u8]) -> (out: Hash32)
    ensures
        out == sha256_digest(data@),
{
    sha2::Sha256::digest(data).into()
}

/// The hash of an inner node whose children hold `left` and `right`.
pub open spec fn spec_hash_pair(left: Seq<u8>, right: Seq<u8>) -> Seq<u8> {
    sha256_digest(left + right)@
}

/// A leaf whose 32 bytes are all zero.
pub open spec fn zero_chunk() -> Seq<u8> {
    Seq::new(32, |i: int| 0u8)
}

/// The value that fills the leaves past the end of a leaf sequence:
/// the hash of the all-zero leaf.
pub open spec fn spec_pad_hash() -> Seq<u8> {
    sha256_digest(zero_chunk())@
}

/// Hashes a byte string.
pub fn hash_bytes(data: &Vec<u8>) -> (out: Hash32)
    ensures
        out == sha256_digest(data@),
{
    sha256(data.as_slice())
}

/// Hashes the 64 bytes `left || right`.
pub fn hash_pair(left: &Hash32, right: &Hash32) -> (out: Hash32)
    ensures
        out@ == spec_hash_pair(left@, right@),
{
    let mut buf: Vec<u8> = Vec::with_capacity(64);
    let mut i: usize = 0;
    while i < 32
        invariant
            i <= 32,
            buf@ == left@.subrange(0, i as int),
        decreases 32 - i,
    {
        buf.push(left[i]);
        i = i + 1;
    }
    let mut j: usize = 0;
    while j < 32
        invariant
            j <= 32,
            buf@ == left@ + right@.subrange(0, j as int),
        decreases 32 - j,
    {
        buf.push(right[j]);
        j = j + 1;
    }
    assert(buf@ == left@ + right@);
    sha256(buf.as_slice())
}

/// The padding value, computed.
pub fn pad_hash() -> (out: Hash32)
    ensures
        out@ == spec_pad_hash(),
{
    let zero: Hash32 = [0u8; 32];
    assert(zero@ =~= zero_chunk());
    sha256(zero.as_slice())
}

/// Whether two hash values hold the same bytes.
pub fn hash_eq(a: &Hash32, b: &Hash32) -> (same: bool)
    ensures
        same == (a@ == b@),
{
    let mut i: usize = 0;
    while i < 32
        invariant
            i <= 32,
            a@.subrange(0, i as int) == b@.subrange(0, i as int),
        decreases 32 - i,
    {
        if a[i] != b[i] {
            return false;
        }
        assert(a@.subrange(0, i + 1) == a@.subrange(0, i as int).push(a@[i as int]));
        assert(b@.subrange(0, i + 1) == b@.subrange(0, i as int).push(b@[i as int]));
        i = i + 1;
    }
    assert(a@ == a@.subrange(0, 32));
    assert(b@ == b@.subrange(0, 32));
    true
}

} // verus!
