//! Big-endian byte encodings of unsigned integers.
//!
//! Group elements and the modulus are hashed and persisted as unsigned
//! big-endian byte strings; fixed-width counters are hashed as 8- or 4-byte
//! big-endian words. These spec functions give every such byte string its
//! numeric meaning.

use vstd::prelude::*;

verus! {

use vstd::arithmetic::power2::{pow2, lemma_pow2_adds};

/// The unsigned value of a big-endian byte string; leading zero bytes carry
/// no value.
pub open spec fn bytes_be_value(s: Seq<u8>) -> nat
    decreases s.len(),
{
    if s.len() == 0 {
        0
    } else {
        (bytes_be_value(s.drop_last()) * 256 + s.last()) as nat
    }
}

/// The big-endian digits of `v`, with no leading zero byte; empty for zero.
pub open spec fn be_digits_of(v: nat) -> Seq<u8>
    decreases v,
{
    if v == 0 {
        Seq::empty()
    } else {
        be_digits_of(v / 256).push((v % 256) as u8)
    }
}

/// The minimal big-endian encoding of `v`: a single zero byte for zero,
/// otherwise the digits of `v` with no leading zero byte.
pub open spec fn be_bytes_of(v: nat) -> Seq<u8> {
    if v == 0 {
        seq![0u8]
    } else {
        be_digits_of(v)
    }
}

/// The 8-byte big-endian form of a 64-bit word.
pub open spec fn u64_be(x: u64) -> Seq<u8> {
    seq![
        ((x as nat / 0x100000000000000) % 256) as u8,
        ((x as nat / 0x1000000000000) % 256) as u8,
        ((x as nat / 0x10000000000) % 256) as u8,
        ((x as nat / 0x100000000) % 256) as u8,
        ((x as nat / 0x1000000) % 256) as u8,
        ((x as nat / 0x10000) % 256) as u8,
        ((x as nat / 0x100) % 256) as u8,
        (x as nat % 256) as u8,
    ]
}

/// The 4-byte big-endian form of a 32-bit word.
pub open spec fn u32_be(x: u32) -> Seq<u8> {
    seq![
        ((x as nat / 0x1000000) % 256) as u8,
        ((x as nat / 0x10000) % 256) as u8,
        ((x as nat / 0x100) % 256) as u8,
        (x as nat % 256) as u8,
    ]
}

pub fn u64_be_bytes(x: u64) -> (r: Vec<u8>)
    ensures
        r@ == u64_be(x),
{
    let mut r: Vec<u8> = Vec::new();
    r.push((x / 0x100000000000000 % 256) as u8);
    r.push((x / 0x1000000000000 % 256) as u8);
    r.push((x / 0x10000000000 % 256) as u8);
    r.push((x / 0x100000000 % 256) as u8);
    r.push((x / 0x1000000 % 256) as u8);
    r.push((x / 0x10000 % 256) as u8);
    r.push((x / 0x100 % 256) as u8);
    r.push((x % 256) as u8);
    proof {
        assert(r@ =~= u64_be(x));
    }
    r
}

pub fn u32_be_bytes(x: u32) -> (r: Vec<u8>)
    ensures
        r@ == u32_be(x),
{
    let mut r: Vec<u8> = Vec::new();
    r.push((x / 0x1000000 % 256) as u8);
    r.push((x / 0x10000 % 256) as u8);
    r.push((x / 0x100 % 256) as u8);
    r.push((x % 256) as u8);
    proof {
        assert(r@ =~= u32_be(x));
    }
    r
}

/// A byte string of length `l` holds a value below `2^(8l)`.
pub proof fn lemma_bytes_be_value_upper(s: Seq<u8>)
    ensures
        bytes_be_value(s) < pow2(8 * s.len()),
    decreases s.len(),
{
    if s.len() == 0 {
        vstd::arithmetic::power2::lemma2_to64();
    } else {
        lemma_bytes_be_value_upper(s.drop_last());
        lemma_pow2_adds(8 * (s.len() - 1) as nat, 8);
        vstd::arithmetic::power2::lemma2_to64();
        assert(pow2(8) == 256);
        let prefix = bytes_be_value(s.drop_last());
        assert(prefix <= pow2(8 * (s.len() - 1) as nat) - 1);
        assert(prefix * 256 <= (pow2(8 * (s.len() - 1) as nat) - 1) * 256)
            by (nonlinear_arith)
            requires prefix <= pow2(8 * (s.len() - 1) as nat) - 1;
        assert((pow2(8 * (s.len() - 1) as nat) - 1) * 256 == pow2(8 * (s.len() - 1) as nat) * 256 - 256)
            by (nonlinear_arith);
    }
}

} // verus!
