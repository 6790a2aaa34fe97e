//! Hashing: SHA3-256 digests of byte strings.
use sha3::Digest;
use vstd::prelude::*;

verus! {

/// The SHA3-256 digest of a byte string, as computed by the `sha3` crate.
pub uninterp spec fn sha3_256_digest(data: Seq<u8>) -> Seq<u8>;

/// Hashes `data` with `sha3::Sha3_256` (one `update` with all of `data`, then
/// `finalize`). The contract claims only that the 32 bytes returned are the
/// SHA3-256 digest of `data`, a function of `data` alone.
#[verifier::external_body]
pub(crate) fn sha3_256(data: &[u8]) -> (digest: [u8; 32])
    ensures
        digest@ == sha3_256_digest(data@),
{
    let mut hasher = sha3::Sha3_256::new();
    hasher.update(data);
    hasher.finalize().into()
}

} // verus!
