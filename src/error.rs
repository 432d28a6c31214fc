//! Errors of the sampling layer.
use vstd::prelude::*;

verus! {

/// What can go wrong while running chains or summarizing them.
#[derive(Debug, Clone, Copy, PartialEq, Eq, Structural)]
pub enum SamplingError {
    /// The initial position does not have one coordinate per parameter.
    DimensionMismatch { expected: usize, found: usize },
    /// The engine failed beyond recovery while running the chain with this seed.
    EngineFatal { seed: u64 },
    /// More posterior values were requested than there are draws.
    InsufficientDraws { requested: usize, available: u128 },
}

} // verus!
