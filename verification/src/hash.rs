//! Deterministic domain hashes.
//!
//! Two maps built from SHA-256 with counter-based rejection sampling:
//! bytes to a group element coprime to the modulus, and a pair of group
//! elements to a prime of exactly the requested bit length. Distinct
//! domain tags keep the two derivations from ever colliding in purpose.
//! Each map is a function of its inputs alone; the spec functions here
//! state the value it returns. Acceptance is only probabilistically quick,
//! so a generous retry ceiling bounds each search, and exhausting it
//! reports a fatal error instead of looping forever on a degenerate
//! modulus.

use vstd::prelude::*;
use num_bigint::BigUint;

verus! {

use vstd::arithmetic::power2::{
    pow2, lemma_pow2_adds, lemma_pow2_pos, lemma_pow2_strictly_increases,
};
use vstd::arithmetic::div_mod::{
    lemma_div_basics, lemma_fundamental_div_mod, lemma_mod_bound, lemma_multiply_divide_lt,
};
use crate::arith::{
    canon, gcd_nat, with_bit_set, lemma_canon_idempotent, lemma_canon_mod,
    lemma_with_bit_set_low, lemma_with_bit_set_range,
};
use crate::bignum::{
    big, big_eq, big_from_bytes_be, big_from_u64, big_gcd, big_mod, big_set_bit, big_shr,
    big_to_bytes_be,
};
use crate::encoding::{be_bytes_of, bytes_be_value, lemma_bytes_be_value_upper, u64_be, u64_be_bytes};
use crate::error::VdfError;
use crate::group::RsaGroup;
use crate::prime::{is_probable_prime, mr_passes};
use crate::sha::{sha256, sha256_of};

/// How many counter values a rejection-sampling derivation may try before
/// the engine treats the configuration as degenerate.
pub const MAX_DERIVE_ATTEMPTS: u64 = 100000;

/// The widest challenge prime the engine derives.
pub const MAX_PRIME_BITS: usize = 32768;

/// The domain tag of the hash-to-group map: the bytes of "residue".
pub open spec fn group_tag() -> Seq<u8> {
    seq![114u8, 101u8, 115u8, 105u8, 100u8, 117u8, 101u8]
}

/// The domain tag of the hash-to-prime map: the bytes of "prime".
pub open spec fn prime_tag() -> Seq<u8> {
    seq![112u8, 114u8, 105u8, 109u8, 101u8]
}

fn group_tag_bytes() -> (r: Vec<u8>)
    ensures
        r@ == group_tag(),
{
    let mut r: Vec<u8> = Vec::new();
    r.push(114);
    r.push(101);
    r.push(115);
    r.push(105);
    r.push(100);
    r.push(117);
    r.push(101);
    proof {
        assert(r@ =~= group_tag());
    }
    r
}

fn prime_tag_bytes() -> (r: Vec<u8>)
    ensures
        r@ == prime_tag(),
{
    let mut r: Vec<u8> = Vec::new();
    r.push(112);
    r.push(114);
    r.push(105);
    r.push(109);
    r.push(101);
    proof {
        assert(r@ =~= prime_tag());
    }
    r
}

/// The group-element candidate for one counter value: the digest of the
/// tag, the input and the counter, reduced modulo `n` and canonicalized.
pub open spec fn h2g_candidate(n: nat, input: Seq<u8>, c: u64) -> nat {
    canon(n, bytes_be_value(sha256_of(group_tag() + input + u64_be(c))) as int)
}

/// Whether a candidate is accepted: neither zero nor one, and coprime to
/// the modulus.
pub open spec fn h2g_accepts(n: nat, input: Seq<u8>, c: u64) -> bool {
    let v = h2g_candidate(n, input, c);
    v != 0 && v != 1 && gcd_nat(v, n) == 1
}

/// The element the hash-to-group map derives, searching counters from `c`
/// up to the retry ceiling; `None` when every counter is rejected.
pub open spec fn h2g_from(n: nat, input: Seq<u8>, c: u64) -> Option<nat>
    decreases MAX_DERIVE_ATTEMPTS - c,
        when c <= MAX_DERIVE_ATTEMPTS
{
    if c >= MAX_DERIVE_ATTEMPTS {
        None
    } else if h2g_accepts(n, input, c) {
        Some(h2g_candidate(n, input, c))
    } else {
        h2g_from(n, input, (c + 1) as u64)
    }
}

/// Hash-to-group is deterministic: the derivation is a function of the
/// modulus and the input bytes alone, so any two results from the same
/// inputs are the same element.
pub proof fn lemma_hash_to_group_deterministic(n: nat, input: Seq<u8>, r1: nat, r2: nat)
    requires
        h2g_from(n, input, 0) == Some(r1),
        h2g_from(n, input, 0) == Some(r2),
    ensures
        r1 == r2,
{
}

/// Derive a group element from arbitrary bytes: hash the domain tag, the
/// input and a counter, reduce and canonicalize, and accept the first
/// candidate that is neither trivial nor shares a factor with the modulus.
/// The result is a function of the modulus and the input alone.
pub fn hash_to_group(group: &RsaGroup, input: &[u8]) -> (res: Result<BigUint, VdfError>)
    requires
        group.wf(),
    ensures
        match res {
            Ok(r) => {
                &&& h2g_from(group.n_spec(), input@, 0) == Some(big(r))
                &&& big(r) == canon(group.n_spec(), big(r) as int)
                &&& 2 <= big(r)
                &&& gcd_nat(big(r), group.n_spec()) == 1
            },
            Err(e) => {
                &&& e == VdfError::RetriesExceeded
                &&& h2g_from(group.n_spec(), input@, 0) is None
            },
        },
{
    let ghost n = group.n_spec();
    let mut counter: u64 = 0;
    while counter < MAX_DERIVE_ATTEMPTS
        invariant
            group.wf(),
            group.n_spec() == n,
            counter <= MAX_DERIVE_ATTEMPTS,
            h2g_from(n, input@, 0) == h2g_from(n, input@, counter),
        decreases MAX_DERIVE_ATTEMPTS - counter,
    {
        let mut buf = group_tag_bytes();
        buf.extend_from_slice(input);
        let cb = u64_be_bytes(counter);
        buf.extend_from_slice(cb.as_slice());
        let digest = sha256(buf.as_slice());
        let raw = big_from_bytes_be(digest.as_slice());
        let reduced = big_mod(&raw, group.modulus());
        let candidate = group.canonical(reduced);
        proof {
            assert(buf@ == group_tag() + input@ + u64_be(counter));
            assert(big(raw) == bytes_be_value(sha256_of(group_tag() + input@ + u64_be(counter))));
            assert(big(reduced) as int == (big(raw) as int) % (n as int));
            lemma_canon_mod(n, big(raw) as int);
            assert(big(candidate) == h2g_candidate(n, input@, counter));
        }
        let zero = big_from_u64(0);
        let one = big_from_u64(1);
        if !big_eq(&candidate, &zero) && !big_eq(&candidate, &one) {
            let d = big_gcd(&candidate, group.modulus());
            if big_eq(&d, &one) {
                proof {
                    assert(h2g_accepts(n, input@, counter));
                    assert(h2g_from(n, input@, counter) == Some(big(candidate)));
                    lemma_canon_idempotent(
                        n,
                        bytes_be_value(sha256_of(group_tag() + input@ + u64_be(counter))) as int,
                    );
                }
                return Ok(candidate);
            }
        }
        proof {
            assert(!h2g_accepts(n, input@, counter));
        }
        counter = counter + 1;
    }
    Err(VdfError::RetriesExceeded)
}

/// The expansion seed for one counter value: the digest of the tag, the
/// two elements' big-endian encodings and the counter.
pub open spec fn h2p_seed(gv: nat, yv: nat, c: u64) -> Seq<u8> {
    sha256_of(prime_tag() + be_bytes_of(gv) + be_bytes_of(yv) + u64_be(c))
}

/// The first `k` expansion blocks of a seed, concatenated: block `i` is
/// the digest of the seed followed by `i` as an 8-byte word.
pub open spec fn expand_blocks(seed: Seq<u8>, k: u64) -> Seq<u8>
    decreases k,
{
    if k == 0 {
        Seq::empty()
    } else {
        expand_blocks(seed, (k - 1) as u64) + sha256_of(seed + u64_be((k - 1) as u64))
    }
}

/// How many 256-bit blocks cover `bits` bits.
pub open spec fn blocks_for(bits: nat) -> nat {
    (bits + 255) / 256
}

/// The `bits`-bit value a seed expands to: enough digest blocks, read as
/// one big-endian value and truncated to the requested width from the top.
pub open spec fn expand_value(seed: Seq<u8>, bits: nat) -> nat {
    bytes_be_value(expand_blocks(seed, blocks_for(bits) as u64)) / pow2(
        (256 * blocks_for(bits) - bits) as nat,
    )
}

/// The prime candidate for one counter: the expansion with its top and
/// bottom bits forced to one, pinning the bit length and oddness.
pub open spec fn h2p_candidate(gv: nat, yv: nat, bits: nat, c: u64) -> nat {
    with_bit_set(with_bit_set(expand_value(h2p_seed(gv, yv, c), bits), (bits - 1) as nat), 0)
}

/// Whether a candidate is accepted: it passes the 16-round primality test
/// seeded from the same expansion seed.
pub open spec fn h2p_accepts(gv: nat, yv: nat, bits: nat, c: u64) -> bool {
    mr_passes(h2p_candidate(gv, yv, bits, c), 16, h2p_seed(gv, yv, c))
}

/// The prime the hash-to-prime map derives, searching counters from `c`
/// up to the retry ceiling; `None` when every counter is rejected.
pub open spec fn h2p_from(gv: nat, yv: nat, bits: nat, c: u64) -> Option<nat>
    decreases MAX_DERIVE_ATTEMPTS - c,
        when c <= MAX_DERIVE_ATTEMPTS
{
    if c >= MAX_DERIVE_ATTEMPTS {
        None
    } else if h2p_accepts(gv, yv, bits, c) {
        Some(h2p_candidate(gv, yv, bits, c))
    } else {
        h2p_from(gv, yv, bits, (c + 1) as u64)
    }
}

/// Hash-to-prime is deterministic: the derivation is a function of the
/// two elements and the requested width alone, so prover and verifier
/// recompute the same challenge prime.
pub proof fn lemma_hash_to_prime_deterministic(gv: nat, yv: nat, bits: nat, l1: nat, l2: nat)
    requires
        h2p_from(gv, yv, bits, 0) == Some(l1),
        h2p_from(gv, yv, bits, 0) == Some(l2),
    ensures
        l1 == l2,
{
}

/// Expand a seed into exactly `bits` bits by concatenating digest blocks
/// keyed by an inner counter and truncating from the top.
fn expand_to_bits(seed: &[u8], bits: usize) -> (r: BigUint)
    requires
        1 <= bits <= MAX_PRIME_BITS,
        seed@.len() == 32,
    ensures
        big(r) == expand_value(seed@, bits as nat),
        big(r) < pow2(bits as nat),
{
    let ghost nblocks = blocks_for(bits as nat);
    proof {
        lemma_fundamental_div_mod(bits + 255, 256);
        lemma_mod_bound(bits + 255, 256);
        assert(256 * nblocks >= bits);
        assert(256 * (nblocks - 1) < bits);
    }
    let mut output: Vec<u8> = Vec::new();
    let mut counter: u64 = 0;
    while output.len() * 8 < bits
        invariant
            1 <= bits <= MAX_PRIME_BITS,
            seed@.len() == 32,
            nblocks == blocks_for(bits as nat),
            256 * nblocks >= bits,
            256 * (nblocks - 1) < bits,
            output@ == expand_blocks(seed@, counter),
            output.len() == 32 * counter,
            counter <= nblocks,
            counter == 0 || 256 * (counter - 1) < bits,
        decreases 256 * nblocks - counter * 256,
    {
        proof {
            assert(256 * (counter as int) < bits);
            assert(counter < nblocks);
        }
        let mut buf: Vec<u8> = Vec::new();
        buf.extend_from_slice(seed);
        let cb = u64_be_bytes(counter);
        buf.extend_from_slice(cb.as_slice());
        let block = sha256(buf.as_slice());
        output.extend_from_slice(block.as_slice());
        proof {
            assert(buf@ == seed@ + u64_be(counter));
            assert(block@ == sha256_of(seed@ + u64_be(counter)));
            assert(output@ == expand_blocks(seed@, (counter + 1) as u64));
        }
        counter = counter + 1;
    }
    proof {
        assert(counter >= 1);
        assert(256 * (counter as int) >= bits);
        assert(counter == nblocks);
    }
    let value = big_from_bytes_be(output.as_slice());
    let extra = output.len() * 8 - bits;
    proof {
        lemma_bytes_be_value_upper(output@);
        assert(8 * output@.len() == 256 * nblocks);
        lemma_pow2_adds(extra as nat, bits as nat);
        lemma_pow2_pos(extra as nat);
        lemma_pow2_pos(bits as nat);
    }
    if extra > 0 {
        let r = big_shr(&value, extra);
        proof {
            lemma_multiply_divide_lt(big(value) as int, pow2(extra as nat) as int, pow2(bits as nat) as int);
            assert(big(r) < pow2(bits as nat));
        }
        r
    } else {
        proof {
            lemma_div_basics(big(value) as int);
            assert(pow2(0) == 1) by {
                vstd::arithmetic::power2::lemma2_to64();
            }
        }
        value
    }
}

/// Derive a challenge prime of exactly `bits` bits from a (generator,
/// output) pair: expand a hashed seed to `bits` bits, force the top and
/// bottom bits, and accept the first candidate that passes the primality
/// test. The result is a function of the two elements and `bits` alone,
/// has exactly the requested bit length, and is odd.
pub fn hash_to_prime(g: &BigUint, y: &BigUint, bits: usize) -> (res: Result<BigUint, VdfError>)
    requires
        2 <= bits <= MAX_PRIME_BITS,
    ensures
        match res {
            Ok(l) => {
                &&& h2p_from(big(*g), big(*y), bits as nat, 0) == Some(big(l))
                &&& pow2((bits - 1) as nat) <= big(l) < pow2(bits as nat)
                &&& big(l) % 2 == 1
            },
            Err(e) => {
                &&& e == VdfError::RetriesExceeded
                &&& h2p_from(big(*g), big(*y), bits as nat, 0) is None
            },
        },
{
    let ghost gv = big(*g);
    let ghost yv = big(*y);
    let gb = big_to_bytes_be(g);
    let yb = big_to_bytes_be(y);
    let mut counter: u64 = 0;
    while counter < MAX_DERIVE_ATTEMPTS
        invariant
            2 <= bits <= MAX_PRIME_BITS,
            big(*g) == gv,
            big(*y) == yv,
            gb@ == be_bytes_of(gv),
            yb@ == be_bytes_of(yv),
            counter <= MAX_DERIVE_ATTEMPTS,
            h2p_from(gv, yv, bits as nat, 0) == h2p_from(gv, yv, bits as nat, counter),
        decreases MAX_DERIVE_ATTEMPTS - counter,
    {
        let mut buf = prime_tag_bytes();
        buf.extend_from_slice(gb.as_slice());
        buf.extend_from_slice(yb.as_slice());
        let cb = u64_be_bytes(counter);
        buf.extend_from_slice(cb.as_slice());
        let seed = sha256(buf.as_slice());
        proof {
            assert(buf@ == prime_tag() + be_bytes_of(gv) + be_bytes_of(yv) + u64_be(counter));
            assert(seed@ == h2p_seed(gv, yv, counter));
        }
        let mut candidate = expand_to_bits(seed.as_slice(), bits);
        let ghost raw = big(candidate);
        proof {
            assert((bits - 1) + 1 == bits);
            lemma_with_bit_set_range(raw, (bits - 1) as nat);
        }
        big_set_bit(&mut candidate, (bits - 1) as u64);
        let ghost topped = big(candidate);
        proof {
            lemma_with_bit_set_low(topped);
            lemma_pow2_pos((bits - 1) as nat);
            vstd::arithmetic::power2::lemma_pow2_unfold(bits as nat);
            if topped % 2 == 0 {
                assert(topped + 1 < pow2(bits as nat));
            }
        }
        big_set_bit(&mut candidate, 0);
        proof {
            assert(big(candidate) == h2p_candidate(gv, yv, bits as nat, counter));
            assert(pow2((bits - 1) as nat) <= big(candidate) < pow2(bits as nat));
            assert(big(candidate) % 2 == 1);
            if bits < 0x8000_0000 {
                lemma_pow2_strictly_increases(bits as nat, 0x8000_0000);
            }
        }
        if is_probable_prime(&candidate, 16, seed.as_slice()) {
            proof {
                assert(h2p_accepts(gv, yv, bits as nat, counter));
                assert(h2p_from(gv, yv, bits as nat, counter) == Some(big(candidate)));
            }
            return Ok(candidate);
        }
        proof {
            assert(!h2p_accepts(gv, yv, bits as nat, counter));
        }
        counter = counter + 1;
    }
    Err(VdfError::RetriesExceeded)
}

} // verus!
