//! Per-tensor absmax-aware BF16 -> FP16 selective recast.

pub mod decided;
pub mod kvs;
pub mod laws;
pub mod outcome;
pub mod plan;
pub mod policy;
pub mod range;
pub mod recorded;
pub mod run;
pub mod turned;
pub mod values;
pub mod wht;

use vstd::prelude::*;

verus! {

/// What a recast is asked to do.
#[derive(Debug)]
pub struct Options {
    /// Path of the file to recast.
    pub input: String,
    /// Path of the file to write.
    pub output: Option<String>,
    /// Path of the policy.
    pub policy: String,
    /// Name of the tier.
    pub tier: String,
    /// Path of the table of largest magnitudes.
    pub absmax_tsv: Option<String>,
    /// Whether everything is scaled.
    pub force_rescale: bool,
}

} // verus!
