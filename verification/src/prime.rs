//! Probabilistic primality testing.
//!
//! A Miller–Rabin test whose witnesses are not drawn from a general
//! pseudorandom generator but derived by hashing the caller's seed material
//! together with the round index. The verdict is therefore a function of
//! the candidate, the round count and the seed, which `mr_passes` states
//! exactly; the same inputs always reproduce the same verdict.

use vstd::prelude::*;
use num_bigint::BigUint;

verus! {

use vstd::arithmetic::power::{pow, lemma_pow_mod_noop, lemma_pow_multiplies};
use vstd::arithmetic::power2::{pow2, lemma_pow2_unfold, lemma_pow2_strictly_increases, lemma2_to64};
use crate::bignum::{
    big, big_add, big_eq, big_from_bytes_be, big_from_u64, big_is_even, big_lt, big_mod,
    big_modpow, big_shr, big_sub,
};
use crate::encoding::{bytes_be_value, u32_be, u32_be_bytes};
use crate::sha::{sha256, sha256_of};

/// The exponent of two in `m`: how often `m` halves before turning odd.
pub open spec fn twos_exp(m: nat) -> nat
    decreases m,
{
    if m == 0 || m % 2 == 1 {
        0
    } else {
        twos_exp(m / 2) + 1
    }
}

/// The odd part of `m`: what remains of `m` after its factors of two.
pub open spec fn odd_part(m: nat) -> nat
    decreases m,
{
    if m == 0 || m % 2 == 1 {
        m
    } else {
        odd_part(m / 2)
    }
}

/// The witness base for round `i`: the digest of the hashed seed and the
/// round index, reduced into `[2, n - 2]`.
pub open spec fn mr_witness(n: nat, seed: Seq<u8>, i: u32) -> nat
    recommends
        n >= 5,
{
    bytes_be_value(sha256_of(sha256_of(seed) + u32_be(i))) % ((n - 3) as nat) + 2
}

/// One Miller–Rabin round passes: with `n - 1 == d * 2^r` and `d` odd,
/// `a^d` is congruent to 1 or to -1, or some repeated squaring of it hits
/// -1 before the exponent reaches `n - 1`.
pub open spec fn mr_round_passes(n: nat, d: nat, r: nat, a: nat) -> bool {
    ||| pow(a as int, d) % (n as int) == 1
    ||| pow(a as int, d) % (n as int) == n - 1
    ||| exists|j: nat|
        1 <= j < r && #[trigger] (pow(a as int, d * pow2(j)) % (n as int)) == n - 1
}

/// The verdict of the deterministic Miller–Rabin test: numbers below 4 are
/// decided exactly, even ones rejected, and an odd candidate accepted only
/// if every hashed witness passes its round.
pub open spec fn mr_passes(n: nat, rounds: u32, seed: Seq<u8>) -> bool {
    if n < 4 {
        n == 2 || n == 3
    } else if n % 2 == 0 {
        false
    } else {
        forall|i: u32|
            i < rounds ==> mr_round_passes(
                n,
                odd_part((n - 1) as nat),
                twos_exp((n - 1) as nat),
                #[trigger] mr_witness(n, seed, i),
            )
    }
}

/// Whether `candidate` is probably prime: `rounds` Miller–Rabin rounds
/// with witnesses derived by hashing `seed` and the round index. The
/// verdict is exactly `mr_passes`, so identical inputs always agree. The
/// candidate must stay under `2^(2^31)` bits of weight so the factored
/// two-exponent of `candidate - 1` fits a machine word.
pub fn is_probable_prime(candidate: &BigUint, rounds: u32, seed: &[u8]) -> (res: bool)
    requires
        big(*candidate) < pow2(0x8000_0000),
    ensures
        res == mr_passes(big(*candidate), rounds, seed@),
{
    let ghost nv = big(*candidate);
    let two = big_from_u64(2);
    let three = big_from_u64(3);
    let four = big_from_u64(4);
    if big_lt(candidate, &four) {
        return big_eq(candidate, &two) || big_eq(candidate, &three);
    }
    if big_is_even(candidate) {
        return false;
    }
    let one = big_from_u64(1);
    let mut d = big_sub(candidate, &one);
    let mut r: u32 = 0;
    proof {
        lemma2_to64();
        assert(big(d) * pow2(0) == nv - 1);
    }
    while big_is_even(&d)
        invariant
            nv >= 5,
            nv < pow2(0x8000_0000),
            big(d) >= 1,
            big(d) * pow2(r as nat) == nv - 1,
            odd_part((nv - 1) as nat) == odd_part(big(d)),
            twos_exp((nv - 1) as nat) == twos_exp(big(d)) + r,
            r < 0x8000_0000,
        decreases big(d),
    {
        let ghost d0 = big(d);
        d = big_shr(&d, 1);
        proof {
            lemma2_to64();
            lemma_pow2_unfold((r + 1) as nat);
            vstd::arithmetic::power2::lemma_pow2_pos((r + 1) as nat);
            assert(big(d) == d0 / 2);
            assert(d0 == 2 * (d0 / 2)) by (nonlinear_arith)
                requires
                    d0 % 2 == 0,
                    d0 >= 1;
            assert(big(d) * pow2((r + 1) as nat) == d0 * pow2(r as nat)) by (nonlinear_arith)
                requires
                    big(d) == d0 / 2,
                    d0 == 2 * (d0 / 2),
                    pow2((r + 1) as nat) == 2 * pow2(r as nat);
            assert(pow2((r + 1) as nat) <= nv - 1) by (nonlinear_arith)
                requires
                    big(d) >= 1,
                    big(d) * pow2((r + 1) as nat) == nv - 1,
                    pow2((r + 1) as nat) >= 1;
            if r + 1 >= 0x8000_0000 {
                if r + 1 > 0x8000_0000 {
                    lemma_pow2_strictly_increases(0x8000_0000, (r + 1) as nat);
                }
                assert(false);
            }
        }
        r = r + 1;
    }
    let ghost dv = big(d);
    let ghost rv = r;
    proof {
        assert(odd_part(big(d)) == big(d));
        assert(twos_exp(big(d)) == 0);
    }
    let state = sha256(seed);
    let mut i: u32 = 0;
    while i < rounds
        invariant
            nv >= 5,
            nv % 2 == 1,
            big(*candidate) == nv,
            big(d) == dv,
            big(two) == 2,
            big(three) == 3,
            dv == odd_part((nv - 1) as nat),
            rv == twos_exp((nv - 1) as nat),
            state@ == sha256_of(seed@),
            r == rv,
            i <= rounds,
            forall|i2: u32| i2 < i ==> mr_round_passes(nv, dv, rv as nat, #[trigger] mr_witness(nv, seed@, i2)),
        decreases rounds - i,
    {
        let mut buf: Vec<u8> = Vec::new();
        buf.extend_from_slice(state.as_slice());
        let ib = u32_be_bytes(i);
        buf.extend_from_slice(ib.as_slice());
        let digest = sha256(buf.as_slice());
        proof {
            assert(buf@ == sha256_of(seed@) + u32_be(i));
        }
        let raw = big_from_bytes_be(digest.as_slice());
        let nm3 = big_sub(candidate, &three);
        let rem = big_mod(&raw, &nm3);
        let a = big_add(&rem, &two);
        proof {
            assert(big(a) == mr_witness(nv, seed@, i));
        }
        if !miller_rabin_witness(candidate, &d, r, &a) {
            proof {
                assert(!mr_round_passes(nv, dv, rv as nat, mr_witness(nv, seed@, i)));
                assert(!mr_passes(nv, rounds, seed@));
            }
            return false;
        }
        i = i + 1;
    }
    true
}

/// One Miller–Rabin round on the witness base `a`, with `d` and `r` the
/// odd part and two-exponent of `n - 1`.
fn miller_rabin_witness(n: &BigUint, d: &BigUint, r: u32, a: &BigUint) -> (res: bool)
    requires
        big(*n) >= 5,
    ensures
        res == mr_round_passes(big(*n), big(*d), r as nat, big(*a)),
{
    let ghost nv = big(*n);
    let ghost dv = big(*d);
    let ghost av = big(*a);
    let one = big_from_u64(1);
    let nm1 = big_sub(n, &one);
    let two = big_from_u64(2);
    let mut x = big_modpow(a, d, n);
    if big_eq(&x, &one) {
        return true;
    }
    if big_eq(&x, &nm1) {
        return true;
    }
    let mut j: u32 = 1;
    proof {
        lemma2_to64();
        assert(dv * pow2(0) == dv) by (nonlinear_arith)
            requires
                pow2(0) == 1;
    }
    while j < r
        invariant
            nv >= 5,
            big(*n) == nv,
            big(*d) == dv,
            big(*a) == av,
            big(two) == 2,
            big(nm1) == nv - 1,
            j >= 1,
            big(x) as int == pow(av as int, dv * pow2((j - 1) as nat)) % (nv as int),
            pow(av as int, dv) % (nv as int) != 1,
            pow(av as int, dv) % (nv as int) != nv - 1,
            forall|j2: nat|
                1 <= j2 < j ==> #[trigger] (pow(av as int, dv * pow2(j2)) % (nv as int)) != nv - 1,
        decreases r - j,
    {
        let ghost xe = dv * pow2((j - 1) as nat);
        x = big_modpow(&x, &two, n);
        proof {
            lemma_pow_mod_noop(pow(av as int, xe), 2, nv as int);
            lemma_pow_multiplies(av as int, xe, 2);
            lemma_pow2_unfold(j as nat);
            assert(xe * 2 == dv * pow2(j as nat)) by (nonlinear_arith)
                requires
                    xe == dv * pow2((j - 1) as nat),
                    pow2(j as nat) == 2 * pow2((j - 1) as nat);
        }
        if big_eq(&x, &nm1) {
            proof {
                assert(pow(av as int, dv * pow2(j as nat)) % (nv as int) == nv - 1);
                assert(1 <= j as nat && (j as nat) < r as nat);
                assert(mr_round_passes(nv, dv, r as nat, av));
            }
            return true;
        }
        j = j + 1;
    }
    false
}

} // verus!
