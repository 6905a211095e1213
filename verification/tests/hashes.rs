use num_bigint::BigUint;
use num_integer::Integer;
use sha2::{Digest, Sha256};
use vdf_engine::group::RsaGroup;
use vdf_engine::hash::{hash_to_group, hash_to_prime};
use vdf_engine::runner::next_challenge;

#[test]
fn hash_to_group_is_deterministic() {
    let group = RsaGroup::new(BigUint::from(35u32));
    let a = hash_to_group(&group, b"same input").unwrap();
    let b = hash_to_group(&group, b"same input").unwrap();
    assert_eq!(a, b);
    let c = hash_to_group(&group, b"other input").unwrap();
    assert!(a != c);
}

#[test]
fn hash_to_group_matches_direct_recomputation() {
    let n = BigUint::from(35u32);
    let group = RsaGroup::new(n.clone());
    let got = hash_to_group(&group, b"golden").unwrap();
    let mut counter: u64 = 0;
    let expect = loop {
        let mut h = Sha256::new();
        h.update(b"residue");
        h.update(b"golden");
        h.update(counter.to_be_bytes());
        let digest = h.finalize();
        let mut c = BigUint::from_bytes_be(&digest) % &n;
        let neg = &n - &c;
        if neg < c {
            c = neg;
        }
        let one = BigUint::from(1u32);
        if c != BigUint::from(0u32) && c != one && c.gcd(&n) == one {
            break c;
        }
        counter += 1;
    };
    assert_eq!(got, expect);
}

#[test]
fn hash_to_prime_bit_length_and_oddness() {
    let g = BigUint::from(123456u64);
    let y = BigUint::from(987654321u64);
    for bits in [16usize, 128, 256] {
        let l = hash_to_prime(&g, &y, bits).unwrap();
        assert_eq!(l.bits() as usize, bits, "exact bit length for {bits}");
        assert!(l.is_odd(), "odd for {bits}");
    }
}

#[test]
fn hash_to_prime_is_deterministic() {
    let g = BigUint::from(11111u64);
    let y = BigUint::from(22222u64);
    let a = hash_to_prime(&g, &y, 64).unwrap();
    let b = hash_to_prime(&g, &y, 64).unwrap();
    assert_eq!(a, b);
    let c = hash_to_prime(&y, &g, 64).unwrap();
    assert!(a != c, "swapping the pair changes the derivation");
}

#[test]
fn hash_to_prime_result_is_probably_prime() {
    let g = BigUint::from(5u64);
    let y = BigUint::from(17u64);
    let l = hash_to_prime(&g, &y, 32).unwrap();
    assert!(vdf_engine::prime::is_probable_prime(&l, 16, b"independent seed"));
}

fn ref_expand_to_bits(seed: &[u8], bits: usize) -> BigUint {
    let mut output = Vec::with_capacity((bits + 7) / 8);
    let mut counter = 0u64;
    while output.len() * 8 < bits {
        let mut hasher = Sha256::new();
        hasher.update(seed);
        hasher.update(counter.to_be_bytes());
        output.extend_from_slice(&hasher.finalize());
        counter += 1;
    }
    let mut candidate = BigUint::from_bytes_be(&output);
    let extra_bits = output.len() * 8 - bits;
    if extra_bits > 0 {
        candidate >>= extra_bits;
    }
    candidate
}

fn ref_miller_rabin_witness(n: &BigUint, d: &BigUint, r: u32, a: &BigUint) -> bool {
    let one = BigUint::from(1u32);
    let mut x = a.modpow(d, n);
    if x == one || x == n - 1u32 {
        return true;
    }
    for _ in 1..r {
        x = x.modpow(&BigUint::from(2u32), n);
        if x == n - 1u32 {
            return true;
        }
    }
    false
}

fn ref_is_probable_prime(candidate: &BigUint, rounds: u32, seed: &[u8]) -> bool {
    if *candidate < BigUint::from(4u32) {
        return *candidate == BigUint::from(2u32) || *candidate == BigUint::from(3u32);
    }
    if candidate.is_even() {
        return false;
    }
    let (mut d, mut r) = (candidate - 1u32, 0u32);
    while d.is_even() {
        d >>= 1;
        r += 1;
    }
    let mut state = Sha256::new();
    state.update(seed);
    let state = state.finalize();
    for i in 0..rounds {
        let mut hasher = Sha256::new();
        hasher.update(state);
        hasher.update(i.to_be_bytes());
        let digest = hasher.finalize();
        let a = BigUint::from_bytes_be(&digest) % (candidate - 3u32) + 2u32;
        if !ref_miller_rabin_witness(candidate, &d, r, &a) {
            return false;
        }
    }
    true
}

fn ref_hash_to_prime(g: &BigUint, y: &BigUint, bits: usize) -> BigUint {
    let mut counter = 0u64;
    loop {
        let mut seed_hasher = Sha256::new();
        seed_hasher.update(b"prime");
        seed_hasher.update(g.to_bytes_be());
        seed_hasher.update(y.to_bytes_be());
        seed_hasher.update(counter.to_be_bytes());
        let seed = seed_hasher.finalize();
        let mut candidate = ref_expand_to_bits(&seed, bits);
        candidate.set_bit((bits - 1) as u64, true);
        candidate.set_bit(0, true);
        if ref_is_probable_prime(&candidate, 16, &seed) {
            return candidate;
        }
        counter += 1;
    }
}

#[test]
fn hash_to_prime_matches_direct_recomputation() {
    for (g, y, bits) in [
        (BigUint::from(5u64), BigUint::from(17u64), 32usize),
        (BigUint::from(0x123456789abcdefu64), BigUint::from(42u64), 64),
        (BigUint::from(3u64), BigUint::from(3u64), 48),
    ] {
        let got = hash_to_prime(&g, &y, bits).unwrap();
        assert_eq!(got, ref_hash_to_prime(&g, &y, bits));
    }
}

#[test]
fn next_challenge_matches_direct_recomputation() {
    let x = [1u8, 2, 3, 4];
    let y = BigUint::from(0x0102030405u64);
    let got = next_challenge(&x, &y, 9);
    let mut h = Sha256::new();
    h.update(x);
    h.update(y.to_bytes_be());
    h.update(9u64.to_be_bytes());
    let expect = h.finalize().to_vec();
    assert_eq!(got, expect);
}
