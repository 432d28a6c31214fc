//! Driving one chain: the decisions between the engine's draws.
//!
//! The engine itself (trajectory integration, adaptation) runs outside the
//! library. A `Run` tells its driver what to ask of the engine next and takes
//! back what the engine answered: first the discarded tuning draws, then the
//! recorded ones.
use vstd::prelude::*;

use crate::chain::ChainRun;
use crate::error::SamplingError;

verus! {

/// What the engine reported of a divergent draw: one record, filled whole,
/// of one of the two kinds of divergence. Reals are binary64 bit patterns.
#[derive(Debug)]
pub enum MyDivergenceInfo {
    /// The energy error of a step of the trajectory exceeded the engine's bound.
    EnergyError {
        start_location: Vec<u64>,
        start_gradient: Vec<u64>,
        start_momentum: Vec<u64>,
        end_location: Vec<u64>,
        energy_error: u64,
        start_idx_in_trajectory: i64,
        end_idx_in_trajectory: i64,
    },
    /// The model's log-density failed, recoverably, during a step of the trajectory.
    LogpFailure {
        start_location: Vec<u64>,
        start_gradient: Vec<u64>,
        start_momentum: Vec<u64>,
        start_idx_in_trajectory: i64,
    },
}

/// What the driver of a chain does next.
#[derive(Debug, Clone, Copy, PartialEq, Eq, Structural)]
pub enum Step {
    /// Ask the engine for a draw that adapts it and is then discarded.
    Tune,
    /// Ask the engine for a draw that is recorded.
    Sample,
    /// The chain is complete.
    Finished,
}

/// One chain in progress.
pub struct Run {
    /// Parameter count; every draw has this many coordinates.
    pub dim: usize,
    /// Draws to discard before recording.
    pub tuning: u64,
    /// Draws to record.
    pub samples: u64,
    /// Where the engine starts.
    pub initial_position: Vec<u64>,
    /// Draws discarded so far.
    pub tuned: u64,
    /// What has been recorded so far, with the chain's seed.
    pub chain: ChainRun,
}

impl Run {
    /// The state is consistent: tuning comes first, the counts stay within
    /// what was asked for, and every recorded draw has `dim` coordinates.
    pub open spec fn wf(&self) -> bool {
        &&& self.initial_position@.len() == self.dim
        &&& self.tuned <= self.tuning
        &&& self.chain.draws@.len() <= self.samples
        &&& self.chain.draws@.len() > 0 ==> self.tuned == self.tuning
        &&& self.chain.stats@.len() <= self.chain.draws@.len()
        &&& self.chain.wf(self.dim as nat)
    }

    /// The step that follows from the counts.
    pub open spec fn step(&self) -> Step {
        if self.tuned < self.tuning {
            Step::Tune
        } else if self.chain.draws@.len() < self.samples {
            Step::Sample
        } else {
            Step::Finished
        }
    }

    /// Engine draws still to come.
    pub open spec fn remaining(&self) -> nat {
        ((self.tuning - self.tuned) + (self.samples - self.chain.draws@.len())) as nat
    }

    /// A chain with this configuration that has taken no draw yet.
    pub open spec fn fresh(self, seed: u64, dim: usize, tuning: u64, samples: u64, initial_position: Seq<u64>) -> bool {
        &&& self.wf()
        &&& self.dim == dim
        &&& self.tuning == tuning
        &&& self.samples == samples
        &&& self.initial_position@ == initial_position
        &&& self.tuned == 0
        &&& self.chain.seed == seed
        &&& self.chain.draws@.len() == 0
        &&& self.chain.stats@.len() == 0
        &&& self.remaining() == tuning + samples
    }

    /// `next` is `prev` after the engine answered its step with `draw` and
    /// `divergence`.
    pub open spec fn recorded(prev: Run, next: Run, draw: Vec<u64>, divergence: Option<MyDivergenceInfo>) -> bool {
        &&& next.wf()
        &&& next.remaining() + 1 == prev.remaining()
        &&& next.dim == prev.dim
        &&& next.tuning == prev.tuning
        &&& next.samples == prev.samples
        &&& next.initial_position@ == prev.initial_position@
        &&& next.chain.seed == prev.chain.seed
        &&& prev.step() == Step::Tune ==> {
            &&& next.tuned == prev.tuned + 1
            &&& next.chain.draws@ == prev.chain.draws@
            &&& next.chain.stats@ == prev.chain.stats@
        }
        &&& prev.step() == Step::Sample ==> {
            &&& next.tuned == prev.tuned
            &&& next.chain.draws@ == prev.chain.draws@.push(draw)
            &&& next.chain.stats@ == match divergence {
                Some(d) => prev.chain.stats@.push(d),
                None => prev.chain.stats@,
            }
        }
    }

    /// Prepare a chain; fails, before any draw, where the initial position
    /// does not have `dim` coordinates.
    pub fn new(seed: u64, dim: usize, tuning: u64, samples: u64, initial_position: Vec<u64>) -> (r:
        Result<Run, SamplingError>)
        ensures
            initial_position@.len() != dim <==> r == Err::<Run, SamplingError>(
                SamplingError::DimensionMismatch { expected: dim, found: initial_position@.len() as usize },
            ),
            r is Ok <==> initial_position@.len() == dim,
            r is Ok ==> r->Ok_0.fresh(seed, dim, tuning, samples, initial_position@),
    {
        if initial_position.len() != dim {
            return Err(SamplingError::DimensionMismatch { expected: dim, found: initial_position.len() });
        }
        let chain = ChainRun { seed, draws: Vec::new(), stats: Vec::new() };
        Ok(Run { dim, tuning, samples, initial_position, tuned: 0, chain })
    }

    /// What the driver does next.
    pub fn next_step(&self) -> (r: Step)
        requires
            self.wf(),
        ensures
            r == self.step(),
            r == Step::Finished <==> self.remaining() == 0,
    {
        if self.tuned < self.tuning {
            Step::Tune
        } else if (self.chain.draws.len() as u64) < self.samples {
            Step::Sample
        } else {
            Step::Finished
        }
    }

    /// Take the engine's answer to the current step: a tuning draw is
    /// discarded; a sampled draw is appended to the trace, and its divergence
    /// record, if any, to the divergence list. The draw stays in the trace
    /// either way.
    pub fn record(&mut self, draw: Vec<u64>, divergence: Option<MyDivergenceInfo>)
        requires
            old(self).wf(),
            old(self).step() != Step::Finished,
            draw@.len() == old(self).dim,
        ensures
            Run::recorded(*old(self), *final(self), draw, divergence),
    {
        if self.tuned < self.tuning {
            self.tuned = self.tuned + 1;
        } else {
            self.chain.draws.push(draw);
            match divergence {
                Some(d) => self.chain.stats.push(d),
                None => {},
            }
        }
    }

    /// The engine failed beyond recovery: the error names this chain's seed.
    pub fn abort(&self) -> (r: SamplingError)
        ensures
            r == (SamplingError::EngineFatal { seed: self.chain.seed }),
    {
        SamplingError::EngineFatal { seed: self.chain.seed }
    }

    /// The completed chain.
    pub fn finish(self) -> (r: ChainRun)
        requires
            self.wf(),
            self.step() == Step::Finished,
        ensures
            r == self.chain,
            r.draws@.len() == self.samples,
            r.wf(self.dim as nat),
    {
        self.chain
    }
}

/// Whatever the tuning length and whatever divergences were reported, a
/// chain that has run to the end holds exactly `samples` draws, and it
/// took exactly `tuning + samples` engine draws to get there.
pub proof fn lemma_trace_length_is_sample_count(start: Run, end: Run, draws_taken: nat)
    requires
        start.wf(),
        end.wf(),
        start.tuning == end.tuning,
        start.samples == end.samples,
        start.tuned == 0,
        start.chain.draws@.len() == 0,
        end.remaining() + draws_taken == start.remaining(),
        end.step() == Step::Finished,
    ensures
        end.chain.draws@.len() == end.samples,
        draws_taken == start.tuning + start.samples,
{
}

} // verus!
