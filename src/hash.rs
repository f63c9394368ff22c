use crate::record::append_bytes32;
use sha2::Digest;
use vstd::prelude::*;

verus! {

/// A fixed-width identifier or digest: channel ids, commitments, digests, roots.
pub type Bytes32 = [u8; 32];

/// The SHA-256 digest of a byte sequence.
pub uninterp spec fn sha256_of(data: Seq<u8>) -> Seq<u8>;

/// Relies on `sha2::Sha256::digest`: the SHA-256 digest of `data`, which
/// depends on the bytes alone.
#[verifier::external_body]
pub(crate) fn sha256_hash(data: &[u8]) -> (r: [u8; 32])
    ensures
        r@ == sha256_of(data@),
{
    let out = sha2::Sha256::digest(data);
    let mut hash = [0u8; 32];
    hash.copy_from_slice(&out);
    hash
}

/// The parent of two Merkle nodes: the digest of `left || right`, in that order.
pub open spec fn pair_hash(left: Seq<u8>, right: Seq<u8>) -> Seq<u8> {
    sha256_of(left + right)
}

/// Hashes two nodes together to form their parent.
pub fn hash_pair(left: [u8; 32], right: [u8; 32]) -> (r: [u8; 32])
    ensures
        r@ == pair_hash(left@, right@),
{
    let mut buf: Vec<u8> = Vec::new();
    append_bytes32(&mut buf, &left);
    append_bytes32(&mut buf, &right);
    assert(buf@ =~= left@ + right@);
    sha256_hash(buf.as_slice())
}

} // verus!
