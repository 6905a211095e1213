use num_bigint::BigUint;
use num_integer::Integer;
use rand::SeedableRng;
use rand_chacha::ChaCha20Rng;
use vdf_engine::config::{InputMode, ProofAlgo};
use vdf_engine::error::VdfError;
use vdf_engine::group::RsaGroup;
use vdf_engine::runner::{generate_rsa_modulus, mode_name, proof_name, Runner};
use vdf_engine::vdf::{eval, prove_alg4, verify};

fn make_group(bits: usize, seed: u64) -> RsaGroup {
    let mut rng = ChaCha20Rng::seed_from_u64(seed);
    RsaGroup::new(generate_rsa_modulus(&mut rng, bits).unwrap())
}

#[test]
fn modulus_generation_is_reproducible_and_odd() {
    let mut rng1 = ChaCha20Rng::seed_from_u64(7);
    let mut rng2 = ChaCha20Rng::seed_from_u64(7);
    let n1 = generate_rsa_modulus(&mut rng1, 64).unwrap();
    let n2 = generate_rsa_modulus(&mut rng2, 64).unwrap();
    assert_eq!(n1, n2);
    assert!(n1.is_odd());
    // two 32-bit halves, each with its byte string's top bit forced, so
    // the product carries 63 or 64 bits
    assert!(n1.bits() == 63 || n1.bits() == 64);
    let mut rng3 = ChaCha20Rng::seed_from_u64(8);
    let n3 = generate_rsa_modulus(&mut rng3, 64).unwrap();
    assert!(n1 != n3);
}

#[test]
fn modulus_halves_have_exactly_the_requested_bits() {
    // 100 bits split into two 50-bit primes: the product carries 99 or
    // 100 bits, never the 112 that byte-rounded halves would give
    let mut rng = ChaCha20Rng::seed_from_u64(17);
    let n = generate_rsa_modulus(&mut rng, 100).unwrap();
    assert!(n.bits() == 99 || n.bits() == 100);
    assert!(n.is_odd());
    // an odd split: 25 + 26 bits
    let mut rng2 = ChaCha20Rng::seed_from_u64(18);
    let n2 = generate_rsa_modulus(&mut rng2, 51).unwrap();
    assert!(n2.bits() == 50 || n2.bits() == 51);
}

#[test]
fn degenerate_modulus_request_fails() {
    let mut rng = ChaCha20Rng::seed_from_u64(1);
    assert!(matches!(generate_rsa_modulus(&mut rng, 0), Err(VdfError::DegenerateModulus)));
    assert!(matches!(generate_rsa_modulus(&mut rng, 1), Err(VdfError::DegenerateModulus)));
}

#[test]
fn evaluate_then_verify_accepts() {
    // 512-bit modulus, t = 1000, k = 128, an arbitrary 32-byte input
    let group = make_group(512, 42);
    let input = [7u8; 32];
    let out = eval(&group, &input, 1000, 128, ProofAlgo::Alg4).unwrap();
    assert!(verify(&group, &out.g, &out.y, &out.pi, 1000, 128));
}

#[test]
fn evaluate_then_verify_accepts_small_parameters() {
    let group = make_group(128, 3);
    let out = eval(&group, b"tick input", 64, 16, ProofAlgo::Alg4).unwrap();
    assert!(verify(&group, &out.g, &out.y, &out.pi, 64, 16));
}

#[test]
fn tampered_output_is_rejected() {
    let group = make_group(128, 5);
    let out = eval(&group, b"tamper", 64, 16, ProofAlgo::Alg4).unwrap();
    let one = BigUint::from(1u32);
    let y_flipped = &out.y ^ &one;
    assert!(!verify(&group, &out.g, &y_flipped, &out.pi, 64, 16));
    let pi_flipped = &out.pi ^ &one;
    assert!(!verify(&group, &out.g, &out.y, &pi_flipped, 64, 16));
    let g_flipped = &out.g ^ &one;
    assert!(!verify(&group, &g_flipped, &out.y, &out.pi, 64, 16));
}

#[test]
fn wrong_iteration_count_is_rejected() {
    let group = make_group(128, 6);
    let out = eval(&group, b"wrong t", 64, 16, ProofAlgo::Alg4).unwrap();
    assert!(!verify(&group, &out.g, &out.y, &out.pi, 63, 16));
    assert!(!verify(&group, &out.g, &out.y, &out.pi, 65, 16));
}

#[test]
fn unsupported_algorithm_is_rejected() {
    let group = make_group(128, 9);
    let res = eval(&group, b"never runs", 1_000_000_000, 16, ProofAlgo::Alg5);
    assert!(matches!(res, Err(VdfError::UnsupportedAlgorithm)));
}

#[test]
fn proof_matches_floor_exponentiation() {
    // a modulus and prime small enough to recompute the proof by hand:
    // pi = g^(2^t / l) folded by negation
    let group = RsaGroup::new(BigUint::from(35u32));
    let g = BigUint::from(2u32);
    let l = BigUint::from(5u32);
    let t = 4u64;
    // 2^4 = 16, 16 / 5 = 3, 2^3 = 8 mod 35 -> min(8, 27) = 8
    assert_eq!(prove_alg4(&group, &g, &l, t), BigUint::from(8u32));
}

#[test]
fn evaluation_is_deterministic() {
    let group = make_group(128, 11);
    let a = eval(&group, b"same", 32, 16, ProofAlgo::Alg4).unwrap();
    let b = eval(&group, b"same", 32, 16, ProofAlgo::Alg4).unwrap();
    assert_eq!(a.g, b.g);
    assert_eq!(a.y, b.y);
    assert_eq!(a.pi, b.pi);
}

#[test]
fn proof_length_is_bounded_by_the_modulus() {
    let group = make_group(128, 13);
    let out = eval(&group, b"size", 32, 16, ProofAlgo::Alg4).unwrap();
    assert!(out.pi.to_bytes_be().len() <= 16);
}

#[test]
fn evaluation_time_grows_with_t() {
    // a smoke check of non-shortcutting: six times the squarings must
    // take clearly longer, whatever constant work surrounds the loop
    let group = make_group(256, 21);
    let input = [3u8; 32];
    let short_start = std::time::Instant::now();
    let short = eval(&group, &input, 2000, 16, ProofAlgo::Alg4).unwrap();
    let short_time = short_start.elapsed();
    let long_start = std::time::Instant::now();
    let long = eval(&group, &input, 12000, 16, ProofAlgo::Alg4).unwrap();
    let long_time = long_start.elapsed();
    assert!(verify(&group, &short.g, &short.y, &short.pi, 2000, 16));
    assert!(verify(&group, &long.g, &long.y, &long.pi, 12000, 16));
    assert!(
        long_time >= 2 * short_time,
        "long {long_time:?} not clearly above short {short_time:?}"
    );
}

#[test]
fn runner_holds_its_configuration() {
    let config = vdf_engine::config::Config {
        tasks: vdf_engine::config::TasksConfig {
            ticks: 3,
            warmup: 1,
            mode: InputMode::FixedInput,
            seed: 42,
        },
        vdf: vdf_engine::config::VdfConfig {
            n_bits: 128,
            t: 32,
            k: 16,
            proof_algo: ProofAlgo::Alg4,
            kappa: None,
            target_duration_ns: None,
        },
        runner: vdf_engine::config::RunnerConfig { cooldown_ms: 0 },
        output: vdf_engine::config::OutputConfig {
            events_jsonl_path: String::from("events.jsonl"),
            summary_json_path: String::from("summary.json"),
        },
    };
    let runner = Runner::new(config);
    assert_eq!(runner.config.tasks.ticks, 3);
    assert_eq!(runner.config.vdf.t, 32);
}

#[test]
fn record_spellings_of_enums() {
    assert_eq!(mode_name(InputMode::FixedInput), "fixed-input");
    assert_eq!(mode_name(InputMode::RandomInput), "random-input");
    assert_eq!(mode_name(InputMode::Chained), "chained");
    assert_eq!(proof_name(ProofAlgo::Alg4), "alg4");
    assert_eq!(proof_name(ProofAlgo::Alg5), "alg5");
}
