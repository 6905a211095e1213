//! The evaluate/prove/verify protocol.
//!
//! Evaluation derives a generator from the input, squares it `t` times in
//! strict sequence, derives a challenge prime from the (generator, output)
//! pair, and accumulates the compact proof `g^(2^t / l)` alongside the
//! squaring. Verification recomputes the prime and checks the algebraic
//! identity `pi^l * g^(2^t mod l) == y` in the group, in far fewer
//! operations than evaluation took.

use vstd::prelude::*;
use num_bigint::BigUint;

verus! {

use vstd::arithmetic::power::{lemma_pow0, lemma_pow1, pow, lemma_pow_adds, lemma_pow_multiplies};
use vstd::arithmetic::power2::{lemma2_to64, lemma_pow2, lemma_pow2_unfold, pow2};
use vstd::arithmetic::div_mod::{
    lemma_basic_div, lemma_fundamental_div_mod, lemma_fundamental_div_mod_converse,
    lemma_mod_bound, lemma_small_mod,
};
use crate::arith::{
    canon, gpow, pm_cong, lemma_canon_cong, lemma_canon_fixed, lemma_canon_idempotent,
    lemma_canon_mul_fold, lemma_canon_one, lemma_cong_canon_eq, lemma_cong_mul, lemma_cong_pow,
    lemma_cong_trans,
};
use crate::bignum::{
    big, big_add, big_clone, big_eq, big_from_u64, big_is_even, big_lt, big_mod, big_modpow,
    big_shr,
};
use crate::config::ProofAlgo;
use crate::error::VdfError;
use crate::group::RsaGroup;
use crate::hash::{h2g_from, h2p_from, hash_to_group, hash_to_prime, MAX_PRIME_BITS};

/// One evaluation's result: the derived generator, the sequentially
/// squared output, and the compact proof.
pub struct VdfOutput {
    pub g: BigUint,
    pub y: BigUint,
    pub pi: BigUint,
}

/// Square `base` `t` times in sequence: each squaring's input is the
/// previous squaring's output.
fn repeated_square(group: &RsaGroup, base: &BigUint, t: u64) -> (r: BigUint)
    requires
        group.wf(),
    ensures
        t == 0 ==> big(r) == big(*base),
        t >= 1 ==> big(r) == gpow(group.n_spec(), big(*base), pow2(t as nat)),
{
    let ghost n = group.n_spec();
    let ghost bv = big(*base);
    let mut acc = big_clone(base);
    let mut i: u64 = 0;
    while i < t
        invariant
            group.wf(),
            group.n_spec() == n,
            big(*base) == bv,
            i <= t,
            i == 0 ==> big(acc) == bv,
            i >= 1 ==> big(acc) == gpow(n, bv, pow2(i as nat)),
        decreases t - i,
    {
        let ghost av = big(acc);
        acc = group.sq(&acc);
        proof {
            lemma2_to64();
            lemma_pow2_unfold((i + 1) as nat);
            if i == 0 {
                lemma_pow1(bv as int);
                lemma_pow_adds(bv as int, 1, 1);
                assert(pow(bv as int, 2) == bv * bv);
                assert(pow2(1) == 2);
            } else {
                let p = pow(bv as int, pow2(i as nat));
                lemma_canon_cong(n, p);
                lemma_canon_mul_fold(n, av as int, p, av as int, p);
                lemma_pow_adds(bv as int, pow2(i as nat), pow2(i as nat));
            }
        }
        i = i + 1;
    }
    acc
}

/// `2^exp` modulo a positive modulus, by modular exponentiation on the
/// small exponent rather than `exp` squarings.
fn pow_mod_two(exp: u64, modulus: &BigUint) -> (r: BigUint)
    requires
        big(*modulus) >= 1,
    ensures
        big(r) == pow2(exp as nat) % big(*modulus),
{
    let base = big_from_u64(2);
    let e = big_from_u64(exp);
    let r = big_modpow(&base, &e, modulus);
    proof {
        lemma_pow2(exp as nat);
    }
    r
}

/// Canonical exponentiation in the group by square-and-multiply.
fn pow_group(group: &RsaGroup, base: &BigUint, exp: &BigUint) -> (r: BigUint)
    requires
        group.wf(),
    ensures
        big(r) == gpow(group.n_spec(), big(*base), big(*exp)),
{
    let ghost n = group.n_spec();
    let ghost bv = big(*base);
    let ghost ev = big(*exp);
    let zero = big_from_u64(0);
    if big_eq(exp, &zero) {
        let r = group.one();
        proof {
            lemma_pow0(bv as int);
            lemma_canon_one(n);
        }
        return r;
    }
    let mut result = group.one();
    let mut base_acc = big_clone(base);
    let mut e = big_clone(exp);
    let ghost mut done: nat = 0;
    let ghost mut jj: nat = 0;
    proof {
        lemma2_to64();
        lemma_pow0(bv as int);
        lemma_pow1(bv as int);
        lemma_canon_one(n);
        lemma_canon_idempotent(n, 1);
        lemma_small_mod(1, n);
        assert(done + big(e) * pow2(0) == ev) by (nonlinear_arith)
            requires
                big(e) == ev,
                done == 0,
                pow2(0) == 1;
    }
    while !big_eq(&e, &zero)
        invariant
            group.wf(),
            group.n_spec() == n,
            big(*base) == bv,
            big(zero) == 0,
            done + big(e) * pow2(jj) == ev,
            pm_cong(n, big(base_acc) as int, pow(bv as int, pow2(jj))),
            big(result) == canon(n, big(result) as int),
            pm_cong(n, big(result) as int, pow(bv as int, done)),
        decreases big(e),
    {
        let ghost done0 = done;
        if !big_is_even(&e) {
            let ghost rv = big(result);
            result = group.mul(&result, &base_acc);
            proof {
                lemma_canon_mul_fold(
                    n,
                    rv as int,
                    pow(bv as int, done),
                    big(base_acc) as int,
                    pow(bv as int, pow2(jj)),
                );
                lemma_pow_adds(bv as int, done, pow2(jj));
                lemma_canon_cong(n, pow(bv as int, (done + pow2(jj)) as nat));
                lemma_canon_idempotent(n, pow(bv as int, (done + pow2(jj)) as nat));
                done = done + pow2(jj);
            }
        }
        let ghost bav = big(base_acc);
        base_acc = group.sq(&base_acc);
        let ghost e0 = big(e);
        e = big_shr(&e, 1);
        proof {
            lemma2_to64();
            lemma_cong_mul(
                n,
                bav as int,
                pow(bv as int, pow2(jj)),
                bav as int,
                pow(bv as int, pow2(jj)),
            );
            lemma_pow_adds(bv as int, pow2(jj), pow2(jj));
            lemma_pow2_unfold((jj + 1) as nat);
            lemma_canon_cong(n, (bav * bav) as int);
            lemma_cong_trans(
                n,
                big(base_acc) as int,
                (bav * bav) as int,
                pow(bv as int, pow2((jj + 1) as nat)),
            );
            assert(big(e) == e0 / 2);
            lemma_fundamental_div_mod(e0 as int, 2);
            assert(done == done0 + (e0 % 2) * pow2(jj)) by (nonlinear_arith)
                requires
                    (e0 % 2 == 1 && done == done0 + pow2(jj)) || (e0 % 2 == 0 && done == done0);
            assert(done + (e0 / 2) * pow2((jj + 1) as nat) == ev) by (nonlinear_arith)
                requires
                    done == done0 + (e0 % 2) * pow2(jj),
                    done0 + e0 * pow2(jj) == ev,
                    e0 == 2 * (e0 / 2) + e0 % 2,
                    pow2((jj + 1) as nat) == 2 * pow2(jj);
            jj = jj + 1;
        }
    }
    proof {
        assert(done == ev) by (nonlinear_arith)
            requires
                done + big(e) * pow2(jj) == ev,
                big(e) == 0;
        lemma_canon_fixed(n, big(result), pow(bv as int, ev));
    }
    result
}

/// Compute the compact proof `g^(2^t / prime)` in `t` group operations,
/// never forming `2^t`: track the running remainder of `2^i` modulo the
/// prime, square an accumulator each step, and fold in `g` whenever
/// doubling the remainder carries.
pub fn prove_alg4(group: &RsaGroup, g: &BigUint, prime: &BigUint, t: u64) -> (r: BigUint)
    requires
        group.wf(),
        big(*prime) >= 2,
    ensures
        big(r) == gpow(group.n_spec(), big(*g), pow2(t as nat) / big(*prime)),
{
    let ghost n = group.n_spec();
    let ghost gv = big(*g);
    let ghost lv = big(*prime);
    let mut x = group.one();
    let mut rem = big_from_u64(1);
    let mut i: u64 = 0;
    proof {
        lemma2_to64();
        lemma_small_mod(1, lv);
        lemma_basic_div(1, lv as int);
        lemma_pow0(gv as int);
        lemma_canon_one(n);
    }
    while i < t
        invariant
            group.wf(),
            group.n_spec() == n,
            big(*g) == gv,
            big(*prime) == lv,
            lv >= 2,
            i <= t,
            big(rem) == pow2(i as nat) % lv,
            big(x) == gpow(n, gv, pow2(i as nat) / lv),
        decreases t - i,
    {
        let ghost q = pow2(i as nat) / lv;
        let ghost m = pow2(i as nat) % lv;
        let two_r = big_add(&rem, &rem);
        let b = !big_lt(&two_r, prime);
        rem = big_mod(&two_r, prime);
        let ghost xv = big(x);
        x = group.sq(&x);
        proof {
            lemma_fundamental_div_mod(pow2(i as nat) as int, lv as int);
            lemma_mod_bound(pow2(i as nat) as int, lv as int);
            lemma_pow2_unfold((i + 1) as nat);
            assert(pow2((i + 1) as nat) == (2 * q) * lv + 2 * m) by (nonlinear_arith)
                requires
                    pow2(i as nat) as int == (lv as int) * (q as int) + m,
                    pow2((i + 1) as nat) == 2 * pow2(i as nat);
            lemma_canon_cong(n, pow(gv as int, q));
            lemma_canon_mul_fold(n, xv as int, pow(gv as int, q), xv as int, pow(gv as int, q));
            lemma_pow_adds(gv as int, q, q);
        }
        if b {
            let ghost sv = big(x);
            x = group.mul(&x, g);
            proof {
                lemma_pow1(gv as int);
                lemma_canon_cong(n, pow(gv as int, (q + q) as nat));
                lemma_canon_mul_fold(
                    n,
                    sv as int,
                    pow(gv as int, (q + q) as nat),
                    gv as int,
                    pow(gv as int, 1),
                );
                lemma_pow_adds(gv as int, (q + q) as nat, 1);
                lemma_fundamental_div_mod_converse(
                    2 * (m as int),
                    lv as int,
                    1,
                    2 * (m as int) - lv,
                );
                assert(pow2((i + 1) as nat) as int == (2 * (q as int) + 1) * (lv as int) + (2 * (
                m as int) - lv)) by (nonlinear_arith)
                    requires
                        pow2((i + 1) as nat) == (2 * q) * lv + 2 * m;
                lemma_fundamental_div_mod_converse(
                    pow2((i + 1) as nat) as int,
                    lv as int,
                    2 * (q as int) + 1,
                    2 * (m as int) - lv,
                );
                assert(big(rem) == 2 * m - lv);
                assert(big(x) == gpow(n, gv, pow2((i + 1) as nat) / lv));
            }
        } else {
            proof {
                lemma_small_mod((2 * m) as nat, lv);
                lemma_fundamental_div_mod_converse(
                    pow2((i + 1) as nat) as int,
                    lv as int,
                    2 * (q as int),
                    2 * (m as int),
                );
                assert(big(rem) == 2 * m);
                assert(big(x) == gpow(n, gv, pow2((i + 1) as nat) / lv));
            }
        }
        i = i + 1;
    }
    x
}

/// Evaluate the VDF on `input`: derive the generator, square it `t` times
/// in sequence, derive the challenge prime of `2k` bits from the
/// (generator, output) pair, and compute the proof alongside. Requesting
/// the unimplemented proof algorithm fails immediately, before any group
/// work; the only other failure is an exhausted derivation.
pub fn eval(group: &RsaGroup, input: &[u8], t: u64, k: usize, algo: ProofAlgo) -> (res: Result<
    VdfOutput,
    VdfError,
>)
    requires
        group.wf(),
        t >= 1,
        1 <= k,
        2 * k <= MAX_PRIME_BITS,
    ensures
        algo == ProofAlgo::Alg5 ==> (res matches Err(e) && e == VdfError::UnsupportedAlgorithm),
        match res {
            Ok(out) => {
                &&& algo == ProofAlgo::Alg4
                &&& h2g_from(group.n_spec(), input@, 0) == Some(big(out.g))
                &&& big(out.y) == gpow(group.n_spec(), big(out.g), pow2(t as nat))
                &&& h2p_from(big(out.g), big(out.y), (2 * k) as nat, 0) matches Some(l)
                    && big(out.pi) == gpow(group.n_spec(), big(out.g), pow2(t as nat) / l)
            },
            Err(e) => {
                &&& algo == ProofAlgo::Alg4 ==> {
                    &&& e == VdfError::RetriesExceeded
                    &&& (h2g_from(group.n_spec(), input@, 0) is None || (h2g_from(
                        group.n_spec(),
                        input@,
                        0,
                    ) matches Some(gv) && h2p_from(
                        gv,
                        gpow(group.n_spec(), gv, pow2(t as nat)),
                        (2 * k) as nat,
                        0,
                    ) is None))
                }
            },
        },
{
    if let ProofAlgo::Alg5 = algo {
        return Err(VdfError::UnsupportedAlgorithm);
    }
    let g = match hash_to_group(group, input) {
        Ok(g) => g,
        Err(e) => {
            return Err(e);
        },
    };
    let y = repeated_square(group, &g, t);
    let l = match hash_to_prime(&g, &y, 2 * k) {
        Ok(l) => l,
        Err(e) => {
            return Err(e);
        },
    };
    proof {
        lemma2_to64();
        if 2 * k - 1 > 1 {
            vstd::arithmetic::power2::lemma_pow2_strictly_increases(1, (2 * k - 1) as nat);
        }
    }
    let pi = prove_alg4(group, &g, &l, t);
    Ok(VdfOutput { g, y, pi })
}

/// Check a claimed (generator, output, proof) triple: recompute the
/// challenge prime from the pair, reduce `2^t` modulo it cheaply, and
/// accept exactly when `pi^l * g^(2^t mod l)` equals `y` in the group.
/// A failed recomputation rejects; verification itself never fails.
pub fn verify(group: &RsaGroup, g: &BigUint, y: &BigUint, pi: &BigUint, t: u64, k: usize) -> (res:
    bool)
    requires
        group.wf(),
        1 <= k,
        2 * k <= MAX_PRIME_BITS,
    ensures
        match h2p_from(big(*g), big(*y), (2 * k) as nat, 0) {
            Some(l) => res == (big(*y) == canon(
                group.n_spec(),
                pow(big(*pi) as int, l) * pow(big(*g) as int, pow2(t as nat) % l),
            )),
            None => res == false,
        },
{
    let ghost n = group.n_spec();
    let l = match hash_to_prime(g, y, 2 * k) {
        Ok(l) => l,
        Err(_) => {
            return false;
        },
    };
    proof {
        lemma2_to64();
        if 2 * k - 1 > 1 {
            vstd::arithmetic::power2::lemma_pow2_strictly_increases(1, (2 * k - 1) as nat);
        }
    }
    let r = pow_mod_two(t, &l);
    let left = pow_group(group, pi, &l);
    let gr = pow_group(group, g, &r);
    let right = group.mul(&left, &gr);
    proof {
        let p1 = pow(big(*pi) as int, big(l));
        let p2 = pow(big(*g) as int, big(r));
        lemma_canon_cong(n, p1);
        lemma_canon_cong(n, p2);
        lemma_canon_mul_fold(n, big(left) as int, p1, big(gr) as int, p2);
    }
    big_eq(&right, y)
}

/// Honest evaluation always verifies: for any challenge `l >= 1`, the
/// canonical value of `pi^l * g^(2^t mod l)` with `pi == g^(2^t / l)`
/// equals the canonical value of `g^(2^t)`. Together with the contracts
/// of `eval` and `verify`, which fix `l` to the same recomputed prime,
/// this is the statement that `verify` accepts every output of `eval`.
pub proof fn lemma_eval_verify(n: nat, gv: nat, t: nat, l: nat)
    requires
        n >= 3,
        l >= 1,
    ensures
        canon(n, pow(gpow(n, gv, pow2(t) / l) as int, l) * pow(gv as int, pow2(t) % l)) == gpow(
            n,
            gv,
            pow2(t),
        ),
{
    let q = pow2(t) / l;
    let m = pow2(t) % l;
    let piv = gpow(n, gv, q);
    lemma_canon_cong(n, pow(gv as int, q));
    lemma_cong_pow(n, piv as int, pow(gv as int, q), l);
    lemma_pow_multiplies(gv as int, q, l);
    lemma_cong_mul(
        n,
        pow(piv as int, l),
        pow(gv as int, q * l),
        pow(gv as int, m),
        pow(gv as int, m),
    );
    lemma_pow_adds(gv as int, q * l, m);
    lemma_fundamental_div_mod(pow2(t) as int, l as int);
    lemma_mod_bound(pow2(t) as int, l as int);
    assert(q * l + m == pow2(t)) by (nonlinear_arith)
        requires
            pow2(t) as int == (l as int) * (q as int) + m;
    lemma_cong_canon_eq(
        n,
        pow(piv as int, l) * pow(gv as int, m),
        pow(gv as int, pow2(t)),
    );
}

/// Correctness of the protocol: whatever `eval` promises of an output
/// triple — the generator from the input's derivation, `y == g^(2^t)`,
/// and the proof `pi == g^(2^t / l)` for the challenge `l` recomputed
/// from `(g, y)` — makes the equality that `verify`'s contract tests come
/// out true. `verify` therefore accepts every output of `eval` on the
/// same `(t, k)`.
pub proof fn lemma_verify_accepts_eval(
    n: nat,
    input: Seq<u8>,
    t: nat,
    k: nat,
    gv: nat,
    yv: nat,
    piv: nat,
)
    requires
        n >= 3,
        h2g_from(n, input, 0) == Some(gv),
        yv == gpow(n, gv, pow2(t)),
        h2p_from(gv, yv, 2 * k, 0) matches Some(l) && l >= 1 && piv == gpow(n, gv, pow2(t) / l),
    ensures
        h2p_from(gv, yv, 2 * k, 0) matches Some(l) ==> yv == canon(
            n,
            pow(piv as int, l) * pow(gv as int, pow2(t) % l),
        ),
{
    let l = h2p_from(gv, yv, 2 * k, 0)->Some_0;
    lemma_eval_verify(n, gv, t, l);
}

} // verus!
