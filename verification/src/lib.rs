//! Core logic of a synthetic-workload generator: it enumerates fixed-length
//! permutations of a token pool, encodes each as a JSON or CSV payload
//! (optionally corrupting one token), and classifies the outcome of each
//! dispatched request against a fixed latency threshold.

pub mod decode;
pub mod lines;
pub mod outcome;
pub mod payload;
pub mod plan;
pub mod permute;
pub mod pool;
pub mod random;
