//! Bounded-concurrency proving pipeline: per-input artifact hashing, ordered
//! reassembly of out-of-order completions, fail-fast error propagation, and a
//! task-type-dependent hash-combination policy.

pub mod hashing;
pub mod pipeline;
pub mod task;
pub mod types;
