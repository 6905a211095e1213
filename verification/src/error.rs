//! Fatal configuration and exhaustion errors.
//!
//! Verification failure is not an error: `verify` reports it as a plain
//! boolean. The engine fails only on a configuration it does not implement,
//! on a degenerate modulus request, or when a rejection-sampling loop runs
//! past its generous retry ceiling.

use vstd::prelude::*;

verus! {

#[derive(Clone, Copy, Debug, PartialEq, Eq, Structural)]
pub enum VdfError {
    /// The selected proof algorithm is not implemented.
    UnsupportedAlgorithm,
    /// The requested modulus is too short to be split into two primes.
    DegenerateModulus,
    /// A rejection-sampling loop exhausted its retry ceiling, which a
    /// non-degenerate configuration never does in practice.
    RetriesExceeded,
}

} // verus!
