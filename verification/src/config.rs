//! Run configuration.
//!
//! Plain values describing one experiment run: the tick schedule, the VDF
//! parameters, the pacing of the loop, and where records go. Loading these
//! from a file is the orchestration layer's business; the engine only
//! reads them.

use vstd::prelude::*;

verus! {

#[derive(Debug)]
pub struct Config {
    pub tasks: TasksConfig,
    pub vdf: VdfConfig,
    pub runner: RunnerConfig,
    pub output: OutputConfig,
}

#[derive(Debug)]
pub struct TasksConfig {
    pub ticks: usize,
    pub warmup: usize,
    pub mode: InputMode,
    pub seed: u64,
}

#[derive(Debug)]
pub struct VdfConfig {
    pub n_bits: usize,
    pub t: u64,
    pub k: usize,
    pub proof_algo: ProofAlgo,
    pub kappa: Option<usize>,
    pub target_duration_ns: Option<u128>,
}

#[derive(Debug)]
pub struct RunnerConfig {
    pub cooldown_ms: u64,
}

#[derive(Debug)]
pub struct OutputConfig {
    pub events_jsonl_path: String,
    pub summary_json_path: String,
}

/// How the input of each tick is chosen.
#[derive(Debug, Clone, Copy, PartialEq, Eq, Structural)]
pub enum InputMode {
    FixedInput,
    RandomInput,
    Chained,
}

/// Which proof computation the run asks for; only `Alg4` is implemented.
#[derive(Debug, Clone, Copy, PartialEq, Eq, Structural)]
pub enum ProofAlgo {
    Alg4,
    Alg5,
}

} // verus!
