//! The RSA quotient group.
//!
//! Elements live modulo a public odd modulus N, folded by negation: every
//! operation returns the canonical representative of its class, the smaller
//! of `v mod N` and `N - v mod N`. Collapsing `v` and `N - v` is what keeps
//! the order of the working group hidden, which the delay guarantee rests
//! on.

use vstd::prelude::*;
use num_bigint::BigUint;

verus! {

use crate::arith::{canon, lemma_canon_bounds, lemma_canon_mod};
use crate::bignum::{big, big_from_u64, big_lt, big_mod, big_mul, big_sub};

pub struct RsaGroup {
    n: BigUint,
}

impl RsaGroup {
    /// The modulus as a mathematical integer.
    pub closed spec fn n_spec(&self) -> nat {
        big(self.n)
    }

    /// The modulus must be odd and at least 3; the constructor demands it
    /// and every operation preserves it.
    pub open spec fn wf(&self) -> bool {
        self.n_spec() >= 3 && self.n_spec() % 2 == 1
    }

    pub fn new(n: BigUint) -> (r: Self)
        requires
            big(n) >= 3,
            big(n) % 2 == 1,
        ensures
            r.wf(),
            r.n_spec() == big(n),
    {
        Self { n }
    }

    pub fn modulus(&self) -> (r: &BigUint)
        ensures
            big(*r) == self.n_spec(),
    {
        &self.n
    }

    /// Reduce modulo N, then fold by negation.
    pub fn canonical(&self, value: BigUint) -> (r: BigUint)
        requires
            self.wf(),
        ensures
            big(r) == canon(self.n_spec(), big(value) as int),
            big(r) <= self.n_spec() / 2,
    {
        proof {
            lemma_canon_bounds(self.n_spec(), big(value) as int);
        }
        let reduced = big_mod(&value, &self.n);
        let neg = big_sub(&self.n, &reduced);
        if big_lt(&neg, &reduced) {
            neg
        } else {
            reduced
        }
    }

    /// The canonical product of two elements.
    pub fn mul(&self, a: &BigUint, b: &BigUint) -> (r: BigUint)
        requires
            self.wf(),
        ensures
            big(r) == canon(self.n_spec(), (big(*a) * big(*b)) as int),
    {
        proof {
            lemma_canon_mod(self.n_spec(), (big(*a) * big(*b)) as int);
        }
        let prod = big_mul(a, b);
        let reduced = big_mod(&prod, &self.n);
        self.canonical(reduced)
    }

    /// The canonical square of an element.
    pub fn sq(&self, a: &BigUint) -> (r: BigUint)
        requires
            self.wf(),
        ensures
            big(r) == canon(self.n_spec(), (big(*a) * big(*a)) as int),
    {
        proof {
            lemma_canon_mod(self.n_spec(), (big(*a) * big(*a)) as int);
        }
        let prod = big_mul(a, a);
        let reduced = big_mod(&prod, &self.n);
        self.canonical(reduced)
    }

    /// The group identity.
    pub fn one(&self) -> (r: BigUint)
        ensures
            big(r) == 1,
    {
        big_from_u64(1)
    }
}

} // verus!
