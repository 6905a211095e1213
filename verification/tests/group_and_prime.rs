use num_bigint::BigUint;
use num_integer::Integer;
use vdf_engine::group::RsaGroup;
use vdf_engine::prime::is_probable_prime;

#[test]
fn canonical_known_values() {
    let group = RsaGroup::new(BigUint::from(35u32));
    // 20 mod 35 is 20; 35 - 20 = 15 is smaller, so the representative is 15
    assert_eq!(group.canonical(BigUint::from(20u32)), BigUint::from(15u32));
    // 40 mod 35 is 5, already in the lower half
    assert_eq!(group.canonical(BigUint::from(40u32)), BigUint::from(5u32));
    assert_eq!(group.canonical(BigUint::from(0u32)), BigUint::from(0u32));
    assert_eq!(group.canonical(BigUint::from(35u32)), BigUint::from(0u32));
}

#[test]
fn canonical_is_idempotent_and_at_most_half() {
    let group = RsaGroup::new(BigUint::from(101u32));
    let half = BigUint::from(50u32);
    for v in 0u32..300 {
        let once = group.canonical(BigUint::from(v));
        let twice = group.canonical(once.clone());
        assert_eq!(once, twice);
        assert!(once <= half);
    }
}

#[test]
fn group_operations_match_hand_computation() {
    let group = RsaGroup::new(BigUint::from(35u32));
    assert_eq!(group.one(), BigUint::from(1u32));
    assert_eq!(group.modulus(), &BigUint::from(35u32));
    // 6 * 8 = 48 = 13 mod 35; min(13, 22) = 13
    assert_eq!(group.mul(&BigUint::from(6u32), &BigUint::from(8u32)), BigUint::from(13u32));
    // 12^2 = 144 = 4 mod 35
    assert_eq!(group.sq(&BigUint::from(12u32)), BigUint::from(4u32));
    // 17^2 = 289 = 9 mod 35
    assert_eq!(group.sq(&BigUint::from(17u32)), BigUint::from(9u32));
}

#[test]
fn known_small_primes_accepted() {
    for p in [2u32, 3, 5, 97] {
        assert!(is_probable_prime(&BigUint::from(p), 16, b"seed material"), "{p} must be prime");
    }
}

#[test]
fn known_small_composites_rejected() {
    for c in [0u32, 1, 4, 9, 15, 91] {
        assert!(!is_probable_prime(&BigUint::from(c), 16, b"seed material"), "{c} must be composite");
    }
}

#[test]
fn known_256_bit_primes_accepted() {
    let p = BigUint::parse_bytes(
        b"fffffffffffffffffffffffffffffffffffffffffffffffffffffffefffffc2f",
        16,
    )
    .unwrap();
    let n = BigUint::parse_bytes(
        b"fffffffffffffffffffffffffffffffebaaedce6af48a03bbfd25e8cd0364141",
        16,
    )
    .unwrap();
    assert!(is_probable_prime(&p, 16, b"a"));
    assert!(is_probable_prime(&n, 16, b"b"));
}

#[test]
fn product_of_known_primes_rejected() {
    // the Mersenne prime 2^127 - 1, squared: a 254-bit composite
    let m127 = BigUint::from(u128::MAX >> 1);
    assert!(is_probable_prime(&m127, 16, b"m"));
    let square = &m127 * &m127;
    assert!(!is_probable_prime(&square, 16, b"m"));
    // and the product of the two 256-bit primes above
    let p = BigUint::parse_bytes(
        b"fffffffffffffffffffffffffffffffffffffffffffffffffffffffefffffc2f",
        16,
    )
    .unwrap();
    let n = BigUint::parse_bytes(
        b"fffffffffffffffffffffffffffffffebaaedce6af48a03bbfd25e8cd0364141",
        16,
    )
    .unwrap();
    assert!(!is_probable_prime(&(&p * &n), 16, b"pn"));
}

#[test]
fn primality_verdict_is_deterministic() {
    let candidate = BigUint::from(104729u32);
    let first = is_probable_prime(&candidate, 16, b"same seed");
    for _ in 0..5 {
        assert_eq!(is_probable_prime(&candidate, 16, b"same seed"), first);
    }
    assert!(first);
}

#[test]
fn gcd_sanity_through_hash_to_group() {
    // 3 * 5 * 7 = 105: a modulus with many small factors forces the
    // coprimality rejection to do real work
    let modulus = BigUint::from(105u32);
    let group = RsaGroup::new(modulus.clone());
    let g = vdf_engine::hash::hash_to_group(&group, b"coprime input").unwrap();
    assert_eq!(g.gcd(&modulus), BigUint::from(1u32));
    assert!(g >= BigUint::from(2u32));
    assert!(g <= BigUint::from(52u32));
}
