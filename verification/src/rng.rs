//! The seeded bit generator behind modulus generation.
//!
//! The caller supplies a ChaCha generator seeded explicitly, so a fixed
//! seed reproduces an identical modulus. Verification promises nothing of
//! the drawn bytes: everything proved downstream holds for every outcome.

use vstd::prelude::*;
use rand::Rng;
use rand_chacha::ChaCha20Rng;

verus! {

#[verifier::external_type_specification]
#[verifier::external_body]
pub struct ExChaCha20Rng(ChaCha20Rng);

/// Relies on `rand::Rng::fill_bytes` for `ChaCha20Rng`: the buffer is
/// filled in place and keeps its length; nothing is promised of the
/// bytes drawn.
#[verifier::external_body]
pub(crate) fn fill_random(rng: &mut ChaCha20Rng, buf: &mut Vec<u8>)
    ensures
        final(buf)@.len() == old(buf)@.len(),
{
    rng.fill_bytes(buf.as_mut_slice());
}

} // verus!
