//! SHA-256 digests.
use vstd::prelude::*;

use sha2::Digest;

verus! {

/// The SHA-256 digest of `data`.
pub uninterp spec fn sha256_of(data: Seq<u8>) -> Seq<u8>;

/// `sha2::Sha256::digest`: the 32-byte SHA-256 digest of `data`, named
/// `sha256_of(data)` here.  The digest depends on the input bytes alone.
/// Feeding a hasher several pieces, as the callers' formats describe, gives
/// the digest of the pieces' concatenation, which is what is passed here.
#[verifier::external_body]
pub(crate) fn sha256(data: &[u8]) -> (r: [u8; 32])
    ensures
        r@ == sha256_of(data@),
{
    sha2::Sha256::digest(data).into()
}

} // verus!
