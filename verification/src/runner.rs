//! Run setup and the per-tick derivations of the experiment surface.
//!
//! The tick loop itself times, sleeps and writes records, which is the
//! orchestration layer's business; what stands here is everything that
//! loop decides or computes: modulus generation from the seeded bit
//! generator, the chained-input derivation, and the record spellings of
//! the configuration enums.

use vstd::prelude::*;
use num_bigint::BigUint;
use rand_chacha::ChaCha20Rng;

verus! {

use vstd::arithmetic::power2::{
    lemma2_to64, lemma_pow2_adds, lemma_pow2_pos, lemma_pow2_strictly_increases, pow2,
};
use vstd::arithmetic::div_mod::{lemma_mul_mod_noop, lemma_multiply_divide_lt};
use crate::arith::{lemma_with_bit_set_low, lemma_with_bit_set_range};
use crate::bignum::{big, big_from_bytes_be, big_mul, big_set_bit, big_shr, big_to_bytes_be};
use crate::config::{Config, InputMode, ProofAlgo};
use crate::encoding::{be_bytes_of, lemma_bytes_be_value_upper, u64_be, u64_be_bytes};
use crate::error::VdfError;
use crate::hash::MAX_DERIVE_ATTEMPTS;
use crate::prime::{is_probable_prime, mr_passes};
use crate::rng::fill_random;
use crate::sha::{sha256, sha256_of};

/// The widest modulus the generator accepts.
pub const MAX_MODULUS_BITS: usize = 65536;

pub struct Runner {
    pub config: Config,
}

impl Runner {
    pub fn new(config: Config) -> (r: Self)
        ensures
            r.config == config,
    {
        Self { config }
    }
}

/// The name of an input mode, as records spell it.
pub fn mode_name(mode: InputMode) -> (r: &'static str)
    ensures
        mode == InputMode::FixedInput ==> r@ == "fixed-input"@,
        mode == InputMode::RandomInput ==> r@ == "random-input"@,
        mode == InputMode::Chained ==> r@ == "chained"@,
{
    match mode {
        InputMode::FixedInput => "fixed-input",
        InputMode::RandomInput => "random-input",
        InputMode::Chained => "chained",
    }
}

/// The name of a proof algorithm, as records spell it.
pub fn proof_name(algo: ProofAlgo) -> (r: &'static str)
    ensures
        algo == ProofAlgo::Alg4 ==> r@ == "alg4"@,
        algo == ProofAlgo::Alg5 ==> r@ == "alg5"@,
{
    match algo {
        ProofAlgo::Alg4 => "alg4",
        ProofAlgo::Alg5 => "alg5",
    }
}

/// What holds of every prime the generator accepts for a byte width of
/// What holds of every prime the generator accepts for a requested width
/// of `bits`: exactly `bits` bits, oddness, a value of at least two, and
/// a passed 16-round primality test under some 32-byte seed.
pub open spec fn prime_ok(p: nat, bits: nat) -> bool {
    &&& pow2((bits - 1) as nat) <= p < pow2(bits)
    &&& p % 2 == 1
    &&& 2 <= p
    &&& exists|s: Seq<u8>| s.len() == 32 && mr_passes(p, 16, s)
}

/// Draw `bits` random bits, force the top and bottom bits so the
/// candidate has exactly the requested bit length and is odd, and accept
/// the first candidate that passes 16 rounds of the primality test under
/// freshly drawn seed material.
fn random_prime(rng: &mut ChaCha20Rng, bits: usize) -> (res: Result<BigUint, VdfError>)
    requires
        1 <= bits <= MAX_MODULUS_BITS,
    ensures
        res matches Ok(p) ==> prime_ok(big(p), bits as nat),
        res matches Err(e) ==> e == VdfError::RetriesExceeded,
{
    let len = (bits + 7) / 8;
    let excess = len * 8 - bits;
    let mut attempts: u64 = 0;
    while attempts < MAX_DERIVE_ATTEMPTS
        invariant
            1 <= bits <= MAX_MODULUS_BITS,
            len == (bits + 7) / 8,
            1 <= len <= (MAX_MODULUS_BITS + 7) / 8,
            excess == len * 8 - bits,
        decreases MAX_DERIVE_ATTEMPTS - attempts,
    {
        let mut bytes: Vec<u8> = vec![0u8; len];
        fill_random(rng, &mut bytes);
        let raw = big_from_bytes_be(bytes.as_slice());
        let ghost rawv = big(raw);
        proof {
            lemma2_to64();
            lemma_bytes_be_value_upper(bytes@);
            lemma_pow2_adds(excess as nat, bits as nat);
            lemma_pow2_pos(excess as nat);
            lemma_pow2_pos(bits as nat);
        }
        let mut candidate = if excess > 0 {
            let truncated = big_shr(&raw, excess);
            proof {
                lemma_multiply_divide_lt(
                    rawv as int,
                    pow2(excess as nat) as int,
                    pow2(bits as nat) as int,
                );
            }
            truncated
        } else {
            raw
        };
        proof {
            assert(big(candidate) < pow2(bits as nat));
            assert((bits - 1) + 1 == bits);
            lemma_with_bit_set_range(big(candidate), (bits - 1) as nat);
        }
        big_set_bit(&mut candidate, (bits - 1) as u64);
        let ghost topped = big(candidate);
        proof {
            lemma_with_bit_set_low(topped);
            lemma_pow2_pos((bits - 1) as nat);
            vstd::arithmetic::power2::lemma_pow2_unfold(bits as nat);
            if topped % 2 == 0 {
                assert(topped + 1 < pow2(bits as nat));
            }
        }
        big_set_bit(&mut candidate, 0);
        proof {
            assert(pow2((bits - 1) as nat) <= big(candidate) < pow2(bits as nat));
            assert(big(candidate) % 2 == 1);
            lemma_pow2_strictly_increases(bits as nat, 0x8000_0000);
        }
        let mut seed: Vec<u8> = vec![0u8; 32];
        fill_random(rng, &mut seed);
        if is_probable_prime(&candidate, 16, seed.as_slice()) {
            proof {
                if bits == 1 {
                    // a single-bit candidate is the value one, which the
                    // test never accepts
                    assert(big(candidate) == 1);
                    assert(!mr_passes(1, 16, seed@));
                } else {
                    lemma_pow2_strictly_increases(0, (bits - 1) as nat);
                }
                assert(seed@.len() == 32 && mr_passes(big(candidate), 16, seed@));
            }
            return Ok(candidate);
        }
        attempts = attempts + 1;
    }
    Err(VdfError::RetriesExceeded)
}

/// Generate an RSA modulus: the product of two independently drawn
/// probable primes, one of `bits / 2` bits and one of the remainder. A
/// fixed generator seed reproduces the same modulus; a request below two
/// bits is degenerate and fails at once.
pub fn generate_rsa_modulus(rng: &mut ChaCha20Rng, bits: usize) -> (res: Result<BigUint, VdfError>)
    requires
        bits <= MAX_MODULUS_BITS,
    ensures
        bits < 2 ==> (res matches Err(e) && e == VdfError::DegenerateModulus),
        res matches Ok(nmod) ==> {
            &&& big(nmod) % 2 == 1
            &&& big(nmod) >= 3
            &&& exists|p: nat, q: nat|
                {
                    &&& #[trigger] prime_ok(p, (bits / 2) as nat)
                    &&& #[trigger] prime_ok(q, (bits - bits / 2) as nat)
                    &&& big(nmod) == p * q
                }
        },
        bits >= 2 ==> (res is Err ==> res == Err::<BigUint, VdfError>(VdfError::RetriesExceeded)),
{
    if bits < 2 {
        return Err(VdfError::DegenerateModulus);
    }
    let half = bits / 2;
    let p = match random_prime(rng, half) {
        Ok(p) => p,
        Err(e) => {
            return Err(e);
        },
    };
    let q = match random_prime(rng, bits - half) {
        Ok(q) => q,
        Err(e) => {
            return Err(e);
        },
    };
    let nmod = big_mul(&p, &q);
    proof {
        lemma2_to64();
        assert(big(nmod) >= 2 * 2) by (nonlinear_arith)
            requires
                big(nmod) == big(p) * big(q),
                big(p) >= 2,
                big(q) >= 2;
        lemma_mul_mod_noop(big(p) as int, big(q) as int, 2);
        assert(big(nmod) % 2 == 1);
        assert(prime_ok(big(p), (bits / 2) as nat) && prime_ok(big(q), (bits - bits / 2) as nat)
            && big(nmod) == big(p) * big(q));
    }
    Ok(nmod)
}

/// The chained-mode input for the next tick: the digest of the current
/// input, the output's big-endian encoding, and the tick index.
pub fn next_challenge(x: &[u8], y: &BigUint, tick_index: u64) -> (r: Vec<u8>)
    ensures
        r@ == sha256_of(x@ + be_bytes_of(big(*y)) + u64_be(tick_index)),
        r@.len() == 32,
{
    let mut buf: Vec<u8> = Vec::new();
    buf.extend_from_slice(x);
    let yb = big_to_bytes_be(y);
    buf.extend_from_slice(yb.as_slice());
    let tb = u64_be_bytes(tick_index);
    buf.extend_from_slice(tb.as_slice());
    proof {
        assert(buf@ =~= x@ + be_bytes_of(big(*y)) + u64_be(tick_index));
    }
    sha256(buf.as_slice())
}

} // verus!
