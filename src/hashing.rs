use vstd::prelude::*;
use crate::header::HASH_LEN;

verus! {

/// The SHA-256 digest of a byte string.
pub uninterp spec fn sha256_of(bytes: Seq<u8>) -> Seq<u8>;

/// Relies on sha2's `Sha256::digest`: the digest depends on the bytes alone
/// and, as `Sha256`'s output size is `U32`, is 32 bytes long.
#[verifier::external_body]
fn sha256(bytes: &[u8]) -> (r: Vec<u8>)
    ensures
        r@ == sha256_of(bytes@),
        r@.len() == HASH_LEN,
{
    <sha2::Sha256 as sha2::Digest>::digest(bytes).to_vec()
}

/// The digest of the digest of `bytes`.
pub open spec fn double_hash(bytes: Seq<u8>) -> Seq<u8> {
    sha256_of(sha256_of(bytes))
}

/// The first `difficulty` bytes of `digest` are all zero.
pub open spec fn has_zero_prefix(digest: Seq<u8>, difficulty: nat) -> bool {
    &&& difficulty <= digest.len()
    &&& forall|i: int| 0 <= i < difficulty ==> digest[i] == 0
}

/// Hashes `bytes` twice with SHA-256.
pub fn sha256_2x(bytes: &Vec<u8>) -> (r: Vec<u8>)
    ensures
        r@ == double_hash(bytes@),
        r@.len() == HASH_LEN,
{
    let first = sha256(bytes.as_slice());
    sha256(first.as_slice())
}

/// Tests the leading bytes of a digest against a difficulty, given in bytes.
pub fn zero_prefix(digest: &Vec<u8>, difficulty: usize) -> (r: bool)
    ensures
        r == has_zero_prefix(digest@, difficulty as nat),
{
    if difficulty > digest.len() {
        return false;
    }
    let mut i: usize = 0;
    while i < difficulty
        invariant
            i <= difficulty <= digest@.len(),
            forall|j: int| 0 <= j < i ==> digest@[j] == 0,
        decreases difficulty - i,
    {
        if digest[i] != 0 {
            return false;
        }
        i = i + 1;
    }
    true
}

/// Double-hashes a header and tests the digest against a difficulty; the
/// digest is returned whatever the verdict.
pub fn has_leading_zeroes(header: &Vec<u8>, difficulty: usize) -> (r: (bool, Vec<u8>))
    ensures
        r.1@ == double_hash(header@),
        r.1@.len() == HASH_LEN,
        r.0 == has_zero_prefix(r.1@, difficulty as nat),
{
    let hash = sha256_2x(header);
    let ok = zero_prefix(&hash, difficulty);
    (ok, hash)
}

} // verus!
