pub mod arith;
pub mod bignum;
pub mod config;
pub mod encoding;
pub mod error;
pub mod group;
pub mod hash;
pub mod prime;
pub mod rng;
pub mod runner;
pub mod sha;
pub mod vdf;
