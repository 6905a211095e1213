//! Arithmetic of the quotient group.
//!
//! The group of units modulo N is folded by negation: the representative of
//! a residue class is the smaller of `v mod N` and `N - v mod N`. This file
//! defines that canonical form, congruence up to sign, and the lemmas that
//! let the protocol reason about products and powers of canonicalized
//! values.

use vstd::prelude::*;

verus! {

use vstd::arithmetic::power::pow;
use vstd::arithmetic::power2::pow2;
use vstd::arithmetic::div_mod::{
    lemma_add_mod_noop, lemma_fundamental_div_mod, lemma_mod_bound, lemma_mod_multiples_basic,
    lemma_mod_multiples_vanish, lemma_mul_mod_noop_right, lemma_small_mod, lemma_sub_mod_noop,
};

/// The canonical representative of `v` in the quotient of the residues
/// modulo `n` by negation: the smaller of `v mod n` and `n - v mod n`.
pub open spec fn canon(n: nat, v: int) -> nat
    recommends
        n >= 1,
{
    let m = v % (n as int);
    if m > n - m {
        (n - m) as nat
    } else {
        m as nat
    }
}

/// `a` and `b` fall in the same class of the quotient by negation:
/// congruent modulo `n` either directly or up to sign.
pub open spec fn pm_cong(n: nat, a: int, b: int) -> bool {
    a % (n as int) == b % (n as int) || (a + b) % (n as int) == 0
}

/// The canonical representative of `b^e` modulo `n`.
pub open spec fn gpow(n: nat, b: nat, e: nat) -> nat {
    canon(n, pow(b as int, e))
}

/// `v` with bit `b` forced to one.
pub open spec fn with_bit_set(v: nat, b: nat) -> nat {
    if v / pow2(b) % 2 == 1 {
        v
    } else {
        v + pow2(b)
    }
}

/// Euclid's greatest common divisor, with `gcd(a, 0) == a`.
pub open spec fn gcd_nat(a: nat, b: nat) -> nat
    decreases b,
{
    if b == 0 {
        a
    } else {
        gcd_nat(b, a % b)
    }
}

/// A canonical representative never exceeds half the modulus, and is a
/// proper residue.
pub proof fn lemma_canon_bounds(n: nat, v: int)
    requires
        n >= 1,
    ensures
        canon(n, v) <= n / 2,
        canon(n, v) < n,
{
    lemma_mod_bound(v, n as int);
    lemma_fundamental_div_mod(n as int, 2);
}

/// Canonicalization only reads `v mod n`.
pub proof fn lemma_canon_mod(n: nat, v: int)
    requires
        n >= 1,
    ensures
        canon(n, v % (n as int)) == canon(n, v),
{
    lemma_mod_bound(v, n as int);
    lemma_small_mod((v % (n as int)) as nat, n);
}

/// Canonicalizing keeps the class: the representative is congruent to `v`
/// up to sign.
pub proof fn lemma_canon_cong(n: nat, v: int)
    requires
        n >= 1,
    ensures
        pm_cong(n, canon(n, v) as int, v),
{
    let ni = n as int;
    let m = v % ni;
    lemma_mod_bound(v, ni);
    if m > n - m {
        lemma_fundamental_div_mod(v, ni);
        assert(canon(n, v) + v == ni * (1 + v / ni)) by {
            assert(ni * (v / ni) + ni == ni * (1 + v / ni)) by (nonlinear_arith);
        }
        lemma_mod_multiples_basic(1 + v / ni, ni);
    } else {
        lemma_small_mod(m as nat, n);
    }
}

/// A difference that is a multiple of `n` means equal residues, and back.
pub proof fn lemma_mod_eq_iff_diff(n: nat, a: int, b: int)
    requires
        n >= 1,
    ensures
        (a % (n as int) == b % (n as int)) <==> ((a - b) % (n as int) == 0),
{
    let ni = n as int;
    lemma_sub_mod_noop(a, b, ni);
    lemma_mod_bound(a, ni);
    lemma_mod_bound(b, ni);
    if (a - b) % ni == 0 {
        let d = a % ni - b % ni;
        assert(d % ni == 0);
        if d >= 0 {
            lemma_small_mod(d as nat, n);
        } else {
            lemma_mod_multiples_vanish(1, d, ni);
            lemma_small_mod((d + ni) as nat, n);
        }
    }
    if a % ni == b % ni {
        assert((a % ni - b % ni) % ni == 0) by {
            lemma_small_mod(0, n);
        }
    }
}

/// Congruence up to sign, written with an explicit sign `s`.
pub proof fn lemma_cong_signed(n: nat, a: int, b: int)
    requires
        n >= 1,
        pm_cong(n, a, b),
    ensures
        exists|s: int| (s == 1 || s == -1) && #[trigger] ((a - s * b) % (n as int)) == 0,
{
    let ni = n as int;
    if a % ni == b % ni {
        lemma_mod_eq_iff_diff(n, a, b);
        assert((a - 1 * b) % ni == 0);
    } else {
        assert((a - (-1) * b) % ni == 0);
    }
}

/// Congruence up to sign is transitive.
pub proof fn lemma_cong_trans(n: nat, a: int, b: int, c: int)
    requires
        n >= 1,
        pm_cong(n, a, b),
        pm_cong(n, b, c),
    ensures
        pm_cong(n, a, c),
{
    let ni = n as int;
    lemma_cong_signed(n, a, b);
    lemma_cong_signed(n, b, c);
    let s = choose|s: int| (s == 1 || s == -1) && #[trigger] ((a - s * b) % ni) == 0;
    let t = choose|t: int| (t == 1 || t == -1) && #[trigger] ((b - t * c) % ni) == 0;
    let u = s * t;
    assert(u == 1 || u == -1) by (nonlinear_arith)
        requires
            s == 1 || s == -1,
            t == 1 || t == -1,
            u == s * t;
    assert(a - u * c == (a - s * b) + s * (b - t * c)) by (nonlinear_arith)
        requires
            s == 1 || s == -1,
            t == 1 || t == -1,
            u == s * t;
    lemma_mul_of_multiple(n, b - t * c, s);
    lemma_add_mod_noop(a - s * b, s * (b - t * c), ni);
    assert((a - u * c) % ni == 0) by {
        lemma_small_mod(0, n);
    }
    if u == 1 {
        lemma_mod_eq_iff_diff(n, a, c);
    } else {
        assert(a - u * c == a + c);
    }
}

/// The identity is its own canonical representative.
pub proof fn lemma_canon_one(n: nat)
    requires
        n >= 3,
    ensures
        canon(n, 1) == 1,
{
    lemma_small_mod(1, n);
}

/// A multiple of `n` stays one under any factor.
pub proof fn lemma_mul_of_multiple(n: nat, x: int, y: int)
    requires
        n >= 1,
        x % (n as int) == 0,
    ensures
        (y * x) % (n as int) == 0,
{
    let ni = n as int;
    lemma_mul_mod_noop_right(y, x, ni);
    assert((y * 0) % ni == 0) by {
        lemma_small_mod(0, n);
    }
}

/// Classes multiply: representatives of the same classes have products in
/// the same class.
pub proof fn lemma_cong_mul(n: nat, a: int, a2: int, b: int, b2: int)
    requires
        n >= 1,
        pm_cong(n, a, a2),
        pm_cong(n, b, b2),
    ensures
        pm_cong(n, a * b, a2 * b2),
{
    let ni = n as int;
    lemma_cong_signed(n, a, a2);
    lemma_cong_signed(n, b, b2);
    let s = choose|s: int| (s == 1 || s == -1) && #[trigger] ((a - s * a2) % ni) == 0;
    let t = choose|t: int| (t == 1 || t == -1) && #[trigger] ((b - t * b2) % ni) == 0;
    let u = s * t;
    assert(u == 1 || u == -1) by (nonlinear_arith)
        requires
            s == 1 || s == -1,
            t == 1 || t == -1,
            u == s * t;
    assert(a * b - u * (a2 * b2) == b * (a - s * a2) + (s * a2) * (b - t * b2)) by (nonlinear_arith)
        requires
            s == 1 || s == -1,
            t == 1 || t == -1,
            u == s * t;
    lemma_mul_of_multiple(n, a - s * a2, b);
    lemma_mul_of_multiple(n, b - t * b2, s * a2);
    lemma_add_mod_noop(b * (a - s * a2), (s * a2) * (b - t * b2), ni);
    assert((a * b - u * (a2 * b2)) % ni == 0) by {
        lemma_small_mod(0, n);
    }
    if u == 1 {
        lemma_mod_eq_iff_diff(n, a * b, a2 * b2);
    } else {
        assert(a * b - u * (a2 * b2) == a * b + a2 * b2) by (nonlinear_arith)
            requires u == -1;
    }
}

/// Classes raise to powers: congruent bases give congruent powers.
pub proof fn lemma_cong_pow(n: nat, a: int, b: int, e: nat)
    requires
        n >= 1,
        pm_cong(n, a, b),
    ensures
        pm_cong(n, pow(a, e), pow(b, e)),
    decreases e,
{
    reveal(pow);
    if e == 0 {
        assert(pow(a, 0) == 1);
        assert(pow(b, 0) == 1);
    } else {
        lemma_cong_pow(n, a, b, (e - 1) as nat);
        lemma_cong_mul(n, a, b, pow(a, (e - 1) as nat), pow(b, (e - 1) as nat));
    }
}

/// Values in the same class share their canonical representative.
pub proof fn lemma_cong_canon_eq(n: nat, a: int, b: int)
    requires
        n >= 1,
        pm_cong(n, a, b),
    ensures
        canon(n, a) == canon(n, b),
{
    let ni = n as int;
    let ma = a % ni;
    let mb = b % ni;
    lemma_mod_bound(a, ni);
    lemma_mod_bound(b, ni);
    if a % ni == b % ni {
    } else {
        lemma_add_mod_noop(a, b, ni);
        let x = ma + mb;
        assert(x % ni == 0) by {
            lemma_small_mod(0, n);
        }
        lemma_fundamental_div_mod(x, ni);
        assert(x == ni * (x / ni));
        assert(0 <= x / ni < 2) by (nonlinear_arith)
            requires
                x == ni * (x / ni),
                0 <= x,
                x <= 2 * ni - 2,
                ni >= 1;
        if x / ni == 0 {
            assert(x == 0) by (nonlinear_arith)
                requires
                    x == ni * (x / ni),
                    x / ni == 0;
            assert(ma == 0 && mb == 0);
        } else {
            assert(x == ni) by (nonlinear_arith)
                requires
                    x == ni * (x / ni),
                    x / ni == 1;
            assert(ma + mb == ni);
        }
    }
}

/// A value already canonical stands for every member of its class.
pub proof fn lemma_canon_fixed(n: nat, x: nat, z: int)
    requires
        n >= 1,
        x == canon(n, x as int),
        pm_cong(n, x as int, z),
    ensures
        x == canon(n, z),
{
    lemma_cong_canon_eq(n, x as int, z);
}

/// Canonicalization is idempotent.
pub proof fn lemma_canon_idempotent(n: nat, v: int)
    requires
        n >= 1,
    ensures
        canon(n, canon(n, v) as int) == canon(n, v),
{
    let c = canon(n, v);
    lemma_canon_bounds(n, v);
    lemma_small_mod(c, n);
    lemma_fundamental_div_mod(n as int, 2);
}

/// Forcing a bit below the width keeps the value below the width and
/// raises it to at least the bit's weight.
pub proof fn lemma_with_bit_set_range(v: nat, b: nat)
    requires
        v < pow2(b + 1),
    ensures
        pow2(b) <= with_bit_set(v, b) < pow2(b + 1),
{
    vstd::arithmetic::power2::lemma_pow2_pos(b);
    vstd::arithmetic::power2::lemma_pow2_unfold(b + 1);
    let p = pow2(b);
    lemma_fundamental_div_mod(v as int, p as int);
    lemma_mod_bound(v as int, p as int);
    if v / p % 2 == 1 {
        assert(v / p >= 1);
        assert(v >= p * (v / p)) by (nonlinear_arith)
            requires
                v == p * (v / p) + v % p,
                v % p >= 0;
        assert(p * (v / p) >= p * 1) by (nonlinear_arith)
            requires
                v / p >= 1,
                p >= 1;
    } else {
        let vi = v as int;
        let pi = p as int;
        assert(vi / pi < 2) by (nonlinear_arith)
            requires
                vi == pi * (vi / pi) + vi % pi,
                vi < 2 * pi,
                vi % pi >= 0,
                pi >= 1;
        assert(vi / pi == 0);
        assert(vi == vi % pi) by (nonlinear_arith)
            requires
                vi == pi * (vi / pi) + vi % pi,
                vi / pi == 0;
        assert(v < p);
    }
}

/// Forcing the lowest bit makes the value odd and adds at most one.
pub proof fn lemma_with_bit_set_low(v: nat)
    ensures
        with_bit_set(v, 0) % 2 == 1,
        v <= with_bit_set(v, 0) <= v + 1,
{
    vstd::arithmetic::power2::lemma2_to64();
    assert(v / pow2(0) == v) by {
        vstd::arithmetic::div_mod::lemma_div_basics(v as int);
    }
    if v % 2 == 1 {
    } else {
        lemma_mod_multiples_vanish((v / 2) as int, 1, 2);
        lemma_fundamental_div_mod(v as int, 2);
        lemma_small_mod(1, 2);
    }
}

/// Folding after a product of representatives equals folding the product of
/// any members of their classes.
pub proof fn lemma_canon_mul_fold(n: nat, a: int, a2: int, b: int, b2: int)
    requires
        n >= 1,
        pm_cong(n, a, a2),
        pm_cong(n, b, b2),
    ensures
        canon(n, a * b) == canon(n, a2 * b2),
{
    lemma_cong_mul(n, a, a2, b, b2);
    lemma_cong_canon_eq(n, a * b, a2 * b2);
}

} // verus!
