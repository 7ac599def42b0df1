//! SHA-256 digests of blob payloads, computed by the `sha2` crate.
use vstd::prelude::*;
use sha2::Digest;

verus! {

/// The SHA-256 digest of `data`, as `sha2::Sha256` computes it.
pub uninterp spec fn sha256_of(data: Seq<u8>) -> Seq<u8>;

/// Calls `sha2::Sha256::digest` on `data`. The contract claims that the
/// result is the function `sha256_of` of the bytes, and that a SHA-256 digest
/// has 32 bytes; nothing else about the hash is stated.
#[verifier::external_body]
pub(crate) fn sha256_bytes(data: &[u8]) -> (d: Vec<u8>)
    ensures
        d@ == sha256_of(data@),
        d@.len() == 32,
{
    sha2::Sha256::digest(data).to_vec()
}

} // verus!
