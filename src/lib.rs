//! Sampling orchestration for Bayesian models: the bookkeeping of Markov
//! chains driven by an outside sampling engine, the per-parameter traces and
//! extrema of the draws, and a deterministic posterior subsample; and the
//! reading of the daily temperature records that the regression is run on.
//!
//! Real numbers are held as the bit patterns of IEEE-754 binary64 values
//! (`f64::to_bits`), so that the library never computes in floating point:
//! it moves, compares and selects draws, while the engine and the models'
//! densities compute with the values themselves.
pub mod binary64;
pub mod chain;
pub mod error;
pub mod ghcn;
pub mod model;
pub mod runner;
pub mod sampler;
