//! Running a collection of chains: which chain starts next, with which seed,
//! and when the collection is complete.
//!
//! The engine runs outside the library. The driver asks `next_action`, does
//! what it says (start an engine with the given seed at the initial position,
//! or ask the running engine for a draw) and hands the outcome back. Chains
//! run one after the other; chain `i` is seeded with `seed + i`.
use vstd::prelude::*;

use crate::chain::{ChainRun, Chains};
use crate::error::SamplingError;
use crate::model::Model;
use crate::sampler::{MyDivergenceInfo, Run, Step};

verus! {

/// What the driver of a collection does next.
#[derive(Debug, Clone, Copy, PartialEq, Eq, Structural)]
pub enum Action {
    /// Start a fresh engine on its own copy of the model, seeded with
    /// `seed`, at the initial position.
    StartChain { seed: u64 },
    /// Ask the running engine for its next draw; `tuning` says whether the
    /// draw will be discarded.
    Draw { tuning: bool },
    /// All chains are complete.
    Finished,
}

/// The seed of chain `i`.
pub open spec fn chain_seed(seed: u64, i: int) -> int {
    seed + i
}

/// A collection of chains in progress.
pub struct ChainsRunner {
    /// The base seed; chain `i` is seeded with `seed + i`.
    pub seed: u64,
    /// Chains to run.
    pub chain_count: u64,
    /// Draws each chain discards before recording.
    pub tuning: u64,
    /// Draws each chain records.
    pub samples: u64,
    /// The model's parameter count.
    pub dim: usize,
    /// The model's parameter names.
    pub parameters: Vec<String>,
    /// Where every chain starts.
    pub initial_position: Vec<u64>,
    /// The completed chains, in order.
    pub done: Vec<ChainRun>,
    /// The chain in progress, if any.
    pub current: Option<Run>,
}

impl ChainsRunner {
    /// The configuration is consistent, every completed chain `c` was
    /// seeded with `seed + c` and holds `samples` draws, and the chain in
    /// progress is the next one and not yet complete.
    pub open spec fn wf(&self) -> bool {
        &&& self.parameters@.len() == self.dim
        &&& self.initial_position@.len() == self.dim
        &&& self.seed + self.chain_count <= u64::MAX + 1
        &&& self.done@.len() <= self.chain_count
        &&& forall|c: int| 0 <= c < self.done@.len() ==> {
            &&& (#[trigger] self.done@[c]).seed == chain_seed(self.seed, c)
            &&& self.done@[c].draws@.len() == self.samples
            &&& self.done@[c].wf(self.dim as nat)
        }
        &&& self.current matches Some(run) ==> {
            &&& self.done@.len() < self.chain_count
            &&& run.wf()
            &&& run.dim == self.dim
            &&& run.tuning == self.tuning
            &&& run.samples == self.samples
            &&& run.chain.seed == chain_seed(self.seed, self.done@.len() as int)
            &&& run.step() != Step::Finished
        }
    }

    /// The action that follows from the state.
    pub open spec fn action(&self) -> Action {
        match self.current {
            Some(run) => Action::Draw { tuning: run.step() == Step::Tune },
            None => if self.done@.len() < self.chain_count {
                Action::StartChain { seed: (self.seed + self.done@.len()) as u64 }
            } else {
                Action::Finished
            },
        }
    }

    /// `next` has the configuration of `prev`.
    pub open spec fn same_config(prev: ChainsRunner, next: ChainsRunner) -> bool {
        &&& next.seed == prev.seed
        &&& next.chain_count == prev.chain_count
        &&& next.tuning == prev.tuning
        &&& next.samples == prev.samples
        &&& next.dim == prev.dim
        &&& next.parameters@ == prev.parameters@
        &&& next.initial_position@ == prev.initial_position@
    }

    /// `next` is `prev` with `run` taken in: kept as the chain in progress,
    /// or appended to the completed chains where it is complete.
    pub open spec fn settled(prev: ChainsRunner, next: ChainsRunner, run: Run) -> bool {
        &&& ChainsRunner::same_config(prev, next)
        &&& if run.step() == Step::Finished {
            &&& next.done@ == prev.done@.push(run.chain)
            &&& next.current is None
        } else {
            &&& next.done@ == prev.done@
            &&& next.current == Some(run)
        }
    }

    /// What the driver does next.
    pub fn next_action(&self) -> (r: Action)
        requires
            self.wf(),
        ensures
            r == self.action(),
    {
        match &self.current {
            Some(run) => Action::Draw { tuning: run.next_step() == Step::Tune },
            None => if (self.done.len() as u64) < self.chain_count {
                Action::StartChain { seed: self.seed + self.done.len() as u64 }
            } else {
                Action::Finished
            },
        }
    }

    fn take_in(&mut self, run: Run)
        requires
            old(self).current is None,
            old(self).done@.len() < old(self).chain_count,
            old(self).wf(),
            run.wf(),
            run.dim == old(self).dim,
            run.tuning == old(self).tuning,
            run.samples == old(self).samples,
            run.chain.seed == chain_seed(old(self).seed, old(self).done@.len() as int),
        ensures
            final(self).wf(),
            ChainsRunner::settled(*old(self), *final(self), run),
    {
        if run.next_step() == Step::Finished {
            let chain = run.finish();
            self.done.push(chain);
        } else {
            self.current = Some(run);
        }
    }

    /// Start the next chain, seeded with `seed + i` for the `i`-th chain.
    /// A chain with no draw to take is complete at once.
    pub fn start_chain(&mut self)
        requires
            old(self).wf(),
            old(self).action() is StartChain,
        ensures
            final(self).wf(),
            exists|run: Run|
                run.fresh(
                    (old(self).seed + old(self).done@.len()) as u64,
                    old(self).dim,
                    old(self).tuning,
                    old(self).samples,
                    old(self).initial_position@,
                ) && #[trigger] ChainsRunner::settled(*old(self), *final(self), run),
    {
        let seed = self.seed + self.done.len() as u64;
        let position = copy_position(&self.initial_position);
        match Run::new(seed, self.dim, self.tuning, self.samples, position) {
            Ok(run) => {
                let ghost fresh = run;
                self.take_in(run);
                assert(ChainsRunner::settled(*old(self), *self, fresh));
            },
            Err(_) => {
                assert(false);
            },
        }
    }

    /// Take the running engine's draw, and the divergence it reported, if any.
    pub fn record(&mut self, draw: Vec<u64>, divergence: Option<MyDivergenceInfo>)
        requires
            old(self).wf(),
            old(self).action() is Draw,
            draw@.len() == old(self).dim,
        ensures
            final(self).wf(),
            exists|run: Run|
                Run::recorded(old(self).current->Some_0, run, draw, divergence)
                    && #[trigger] ChainsRunner::settled(*old(self), *final(self), run),
    {
        let mut run = self.current.take().unwrap();
        run.record(draw, divergence);
        let ghost next = run;
        self.take_in(run);
        assert(ChainsRunner::settled(*old(self), *self, next));
    }

    /// The running engine failed beyond recovery: the whole collection is
    /// abandoned, and the error names the failing chain's seed.
    pub fn abort(self) -> (r: SamplingError)
        requires
            self.wf(),
            self.action() is Draw,
        ensures
            r == (SamplingError::EngineFatal { seed: self.current->Some_0.chain.seed }),
    {
        let run = self.current.unwrap();
        run.abort()
    }

    /// The complete collection: chain `c` was seeded with `seed + c` and
    /// holds `samples` draws.
    pub fn finish(self) -> (r: Chains)
        requires
            self.wf(),
            self.action() == Action::Finished,
        ensures
            r.wf(),
            r.chains@ == self.done@,
            r.chains@.len() == self.chain_count,
            r.dim == self.dim,
            r.samples == self.samples,
            r.parameters@ == self.parameters@,
            forall|c: int| 0 <= c < r.chains@.len() ==> (#[trigger] r.chains@[c]).seed == chain_seed(self.seed, c),
    {
        Chains { chains: self.done, dim: self.dim, samples: self.samples, parameters: self.parameters }
    }
}

fn copy_position(v: &Vec<u64>) -> (r: Vec<u64>)
    ensures
        r@ == v@,
{
    let mut r: Vec<u64> = Vec::new();
    let mut i: usize = 0;
    while i < v.len()
        invariant
            i <= v@.len(),
            r@ == v@.take(i as int),
        decreases v@.len() - i,
    {
        r.push(v[i]);
        i += 1;
        assert(r@ =~= v@.take(i as int));
    }
    assert(r@ =~= v@);
    r
}

impl Chains {
    /// Runs a collection of chains, one after the other: `chain_count` chains
    /// of `tuning` discarded and `samples` recorded draws on `model`, each
    /// starting at `initial_position`, chain `i` seeded with `seed + i`. The
    /// returned runner says what to ask of the engine. Fails, before any chain
    /// starts, where the initial position does not have one coordinate per
    /// parameter.
    pub fn run<M: Model>(
        seed: u64,
        model: &M,
        chain_count: u64,
        tuning: u64,
        samples: u64,
        initial_position: Vec<u64>,
    ) -> (r: Result<ChainsRunner, SamplingError>)
        requires
            model.is_consistent(),
            seed + chain_count <= u64::MAX + 1,
        ensures
            initial_position@.len() != model.dim_spec() <==> r == Err::<ChainsRunner, SamplingError>(
                SamplingError::DimensionMismatch {
                    expected: model.dim_spec() as usize,
                    found: initial_position@.len() as usize,
                },
            ),
            r is Ok <==> initial_position@.len() == model.dim_spec(),
            r is Ok ==> {
                let runner = r->Ok_0;
                &&& runner.wf()
                &&& runner.seed == seed
                &&& runner.chain_count == chain_count
                &&& runner.tuning == tuning
                &&& runner.samples == samples
                &&& runner.dim == model.dim_spec()
                &&& runner.parameters@.map_values(|s: String| s@) == model.parameter_names()
                &&& runner.initial_position@ == initial_position@
                &&& runner.done@.len() == 0
                &&& runner.current is None
            },
    {
        let dim = model.dim();
        if initial_position.len() != dim {
            return Err(SamplingError::DimensionMismatch { expected: dim, found: initial_position.len() });
        }
        let parameters = model.parameters();
        Ok(ChainsRunner {
            seed,
            chain_count,
            tuning,
            samples,
            dim,
            parameters,
            initial_position,
            done: Vec::new(),
            current: None,
        })
    }
}

/// No seed is used by two chains of a collection: chain `i` and chain `j`
/// differ in seed wherever `i` and `j` differ.
pub proof fn lemma_chain_seeds_distinct(chains: Chains, seed: u64, i: int, j: int)
    requires
        forall|c: int| 0 <= c < chains.chains@.len() ==> (#[trigger] chains.chains@[c]).seed == chain_seed(seed, c),
        0 <= i < chains.chains@.len(),
        0 <= j < chains.chains@.len(),
        i != j,
    ensures
        chains.chains@[i].seed != chains.chains@[j].seed,
{
}

/// The two chains hold the same seed, draws and divergence records.
pub open spec fn same_chain(a: ChainRun, b: ChainRun) -> bool {
    &&& a.seed == b.seed
    &&& a.draws@ == b.draws@
    &&& a.stats@ == b.stats@
}

/// The two chains in progress are in the same state.
pub open spec fn same_run(a: Run, b: Run) -> bool {
    &&& a.dim == b.dim
    &&& a.tuning == b.tuning
    &&& a.samples == b.samples
    &&& a.initial_position@ == b.initial_position@
    &&& a.tuned == b.tuned
    &&& same_chain(a.chain, b.chain)
}

/// The two collections in progress are in the same state.
pub open spec fn same_state(a: ChainsRunner, b: ChainsRunner) -> bool {
    &&& ChainsRunner::same_config(a, b)
    &&& a.done@.len() == b.done@.len()
    &&& forall|c: int| 0 <= c < a.done@.len() ==> same_chain(#[trigger] a.done@[c], b.done@[c])
    &&& match (a.current, b.current) {
        (None, None) => true,
        (Some(x), Some(y)) => same_run(x, y),
        _ => false,
    }
}

proof fn lemma_settled_same(p: ChainsRunner, q: ChainsRunner, p2: ChainsRunner, q2: ChainsRunner, rp: Run, rq: Run)
    requires
        same_state(p, q),
        p.current is None,
        same_run(rp, rq),
        ChainsRunner::settled(p, p2, rp),
        ChainsRunner::settled(q, q2, rq),
    ensures
        same_state(p2, q2),
{
    if rp.step() == Step::Finished {
        assert forall|c: int| 0 <= c < p2.done@.len() implies same_chain(#[trigger] p2.done@[c], q2.done@[c]) by {
            if c < p.done@.len() {
                assert(p2.done@[c] == p.done@[c] && q2.done@[c] == q.done@[c]);
            }
        }
    }
}

/// Two collection runs in the same state ask the engine for the same thing.
pub proof fn lemma_same_state_same_action(p: ChainsRunner, q: ChainsRunner)
    requires
        same_state(p, q),
    ensures
        p.action() == q.action(),
{
}

/// Starting the next chain of two collection runs in the same state leaves
/// them in the same state.
pub proof fn lemma_start_chain_reproducible(p: ChainsRunner, q: ChainsRunner, p2: ChainsRunner, q2: ChainsRunner, rp: Run, rq: Run)
    requires
        same_state(p, q),
        p.action() is StartChain,
        rp.fresh((p.seed + p.done@.len()) as u64, p.dim, p.tuning, p.samples, p.initial_position@),
        rq.fresh((q.seed + q.done@.len()) as u64, q.dim, q.tuning, q.samples, q.initial_position@),
        ChainsRunner::settled(p, p2, rp),
        ChainsRunner::settled(q, q2, rq),
    ensures
        same_state(p2, q2),
{
    assert(rp.chain.draws@ =~= rq.chain.draws@);
    assert(rp.chain.stats@ =~= rq.chain.stats@);
    lemma_settled_same(p, q, p2, q2, rp, rq);
}

/// Runs with identical arguments that receive identical engine answers are
/// identical: two collection runs in the same state that take the same draw
/// and divergence record are again in the same state. Together with the
/// seeds `seed + i`, the collection is a function of the engine's answers.
pub proof fn lemma_record_reproducible(
    p: ChainsRunner,
    q: ChainsRunner,
    p2: ChainsRunner,
    q2: ChainsRunner,
    draw: Vec<u64>,
    divergence: Option<MyDivergenceInfo>,
    rp: Run,
    rq: Run,
)
    requires
        p.wf(),
        q.wf(),
        same_state(p, q),
        p.action() is Draw,
        Run::recorded(p.current->Some_0, rp, draw, divergence),
        Run::recorded(q.current->Some_0, rq, draw, divergence),
        ChainsRunner::settled(p, p2, rp),
        ChainsRunner::settled(q, q2, rq),
    ensures
        same_state(p2, q2),
{
    let pc = p.current->Some_0;
    let qc = q.current->Some_0;
    assert(pc.step() == qc.step());
    assert(pc.step() != Step::Finished);
    let pn = ChainsRunner { current: None, ..p };
    let qn = ChainsRunner { current: None, ..q };
    assert(ChainsRunner::settled(pn, p2, rp));
    assert(ChainsRunner::settled(qn, q2, rq));
    lemma_settled_same(pn, qn, p2, q2, rp, rq);
}

} // verus!
