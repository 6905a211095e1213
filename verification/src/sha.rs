//! The digest primitive behind every deterministic derivation.

use vstd::prelude::*;
use sha2::Digest;

verus! {

/// What SHA-256 returns for a byte string. The digest is a function of the
/// input bytes alone; it is named here, never spelled out.
pub uninterp spec fn sha256_of(data: Seq<u8>) -> Seq<u8>;

/// Relies on `sha2::Sha256` through `Digest::digest`: the 32-byte SHA-256
/// digest of the input, a function of the input bytes alone.
#[verifier::external_body]
pub(crate) fn sha256(data: &[u8]) -> (r: Vec<u8>)
    ensures
        r@ == sha256_of(data@),
        r@.len() == 32,
{
    sha2::Sha256::digest(data).to_vec()
}

} // verus!
