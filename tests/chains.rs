use regression_sampler::binary64::{is_nan_bits, max_bits, min_bits, NEG_INFINITY, POS_INFINITY};
use regression_sampler::chain::Chains;
use regression_sampler::error::SamplingError;
use regression_sampler::model::mv::MultivariateNormalModel;
use regression_sampler::model::regression::Regression;
use regression_sampler::model::Model;
use regression_sampler::runner::{Action, ChainsRunner};
use regression_sampler::sampler::{MyDivergenceInfo, Run, Step};

fn bits(v: &[f64]) -> Vec<u64> {
    v.iter().map(|x| x.to_bits()).collect()
}

fn reals(v: &[u64]) -> Vec<f64> {
    v.iter().map(|x| f64::from_bits(*x)).collect()
}

/// A stand-in engine: a small linear congruential generator seeded per chain.
struct FakeEngine {
    state: u64,
    dim: usize,
    draws: u64,
}

impl FakeEngine {
    fn new(seed: u64, dim: usize) -> Self {
        FakeEngine { state: seed.wrapping_mul(6364136223846793005).wrapping_add(1), dim, draws: 0 }
    }

    fn draw(&mut self) -> (Vec<u64>, Option<MyDivergenceInfo>) {
        let mut v = Vec::new();
        for _ in 0..self.dim {
            self.state = self.state.wrapping_mul(6364136223846793005).wrapping_add(1442695040888963407);
            v.push(((self.state >> 11) as f64 / (1u64 << 53) as f64 - 0.5).to_bits());
        }
        self.draws += 1;
        let divergence = if self.draws % 4 == 0 {
            Some(MyDivergenceInfo::EnergyError {
                start_location: v.clone(),
                start_gradient: v.clone(),
                start_momentum: v.clone(),
                end_location: v.clone(),
                energy_error: 1500.0f64.to_bits(),
                start_idx_in_trajectory: 0,
                end_idx_in_trajectory: 3,
            })
        } else {
            None
        };
        (v, divergence)
    }
}

fn mv_model(dim: usize) -> MultivariateNormalModel {
    MultivariateNormalModel {
        observed: vec![vec![0.0f64.to_bits(); dim]],
        dims: dim,
        parameters: (0..dim).map(|i| format!("mu{}", i)).collect(),
    }
}

/// Drives a collection with the stand-in engine; returns the seeds started and the engine draws taken.
fn drive(runner: &mut ChainsRunner, engine_draws: &mut u64) -> Vec<u64> {
    let mut seeds = Vec::new();
    let mut engine: Option<FakeEngine> = None;
    loop {
        match runner.next_action() {
            Action::StartChain { seed } => {
                seeds.push(seed);
                engine = Some(FakeEngine::new(seed, runner.dim));
                runner.start_chain();
            }
            Action::Draw { .. } => {
                let (draw, divergence) = engine.as_mut().unwrap().draw();
                *engine_draws += 1;
                runner.record(draw, divergence);
            }
            Action::Finished => break,
        }
    }
    seeds
}

fn run_collection(seed: u64, chain_count: u64, tuning: u64, samples: u64) -> (Chains, Vec<u64>, u64) {
    let model = mv_model(2);
    let mut runner = Chains::run(seed, &model, chain_count, tuning, samples, bits(&[0.0, 0.0])).unwrap();
    let mut taken = 0;
    let seeds = drive(&mut runner, &mut taken);
    (runner.finish(), seeds, taken)
}

#[test]
fn trace_length_is_sample_count() {
    for tuning in [0u64, 1, 13] {
        let (chains, _, taken) = run_collection(7, 2, tuning, 9);
        assert_eq!(taken, 2 * (tuning + 9));
        for c in &chains.chains {
            assert_eq!(c.draws.len(), 9);
            assert_eq!(c.trace(0).len(), 9);
            assert_eq!(c.trace(1).len(), 9);
            // a divergence every fourth engine draw, tuning draws included
            assert!(c.stats().len() <= 9);
        }
    }
}

#[test]
fn single_run_discards_tuning_draws() {
    let mut run = Run::new(3, 1, 2, 3, bits(&[0.5])).unwrap();
    let mut values = Vec::new();
    let mut k = 0.0;
    while run.next_step() != Step::Finished {
        let tuning = run.next_step() == Step::Tune;
        k += 1.0;
        values.push((tuning, k));
        let divergence = if k == 4.0 {
            Some(MyDivergenceInfo::LogpFailure {
                start_location: bits(&[k - 1.0]),
                start_gradient: bits(&[0.0]),
                start_momentum: bits(&[1.0]),
                start_idx_in_trajectory: 2,
            })
        } else {
            None
        };
        run.record(bits(&[k]), divergence);
    }
    assert_eq!(values, vec![(true, 1.0), (true, 2.0), (false, 3.0), (false, 4.0), (false, 5.0)]);
    let chain = run.finish();
    assert_eq!(chain.seed, 3);
    assert_eq!(reals(&chain.trace(0)), vec![3.0, 4.0, 5.0]);
    assert_eq!(chain.stats().len(), 1);
    match &chain.stats()[0] {
        MyDivergenceInfo::LogpFailure { start_location, start_idx_in_trajectory, .. } => {
            assert_eq!(reals(start_location), vec![3.0]);
            assert_eq!(*start_idx_in_trajectory, 2);
        }
        other => panic!("unexpected record {:?}", other),
    }
}

#[test]
fn chains_are_seeded_consecutively() {
    let (chains, seeds, _) = run_collection(42, 3, 5, 4);
    assert_eq!(seeds, vec![42, 43, 44]);
    let chain_seeds: Vec<u64> = chains.chains.iter().map(|c| c.seed).collect();
    assert_eq!(chain_seeds, vec![42, 43, 44]);
}

#[test]
fn collection_run_is_reproducible() {
    let (a, _, _) = run_collection(42, 3, 10, 20);
    let (b, _, _) = run_collection(42, 3, 10, 20);
    for p in 0..2 {
        assert_eq!(a.traces(p), b.traces(p));
    }
    let (c, _, _) = run_collection(43, 3, 10, 20);
    assert_ne!(a.traces(0), c.traces(0));
    // chain 1 of the run seeded 42 is chain 0 of the run seeded 43
    assert_eq!(a.traces(0)[1], c.traces(0)[0]);
}

#[test]
fn extrema_of_empty_collection_are_the_infinities() {
    let (chains, seeds, _) = run_collection(1, 0, 10, 10);
    assert!(seeds.is_empty());
    let (lo, hi) = chains.extrema(0);
    assert_eq!(lo, POS_INFINITY);
    assert_eq!(hi, NEG_INFINITY);
    assert_eq!(f64::from_bits(lo), f64::INFINITY);
    assert_eq!(f64::from_bits(hi), f64::NEG_INFINITY);
}

#[test]
fn extrema_across_chains() {
    let model = mv_model(1);
    let mut runner = Chains::run(0, &model, 2, 0, 3, bits(&[0.0])).unwrap();
    let values = [[2.5, f64::NAN, -1.0], [7.0, 0.0, -3.25]];
    let mut i = 0;
    loop {
        match runner.next_action() {
            Action::StartChain { .. } => runner.start_chain(),
            Action::Draw { tuning } => {
                assert!(!tuning);
                runner.record(bits(&[values[i / 3][i % 3]]), None);
                i += 1;
            }
            Action::Finished => break,
        }
    }
    let chains = runner.finish();
    let (lo, hi) = chains.extrema(0);
    assert_eq!(f64::from_bits(lo), -3.25);
    assert_eq!(f64::from_bits(hi), 7.0);
    assert_eq!(chains.chains[0].extrema(0), ((-1.0f64).to_bits(), 2.5f64.to_bits()));
    let traces = chains.traces(0);
    assert_eq!(traces.len(), 2);
    assert_eq!(reals(&traces[1]), vec![7.0, 0.0, -3.25]);
}

#[test]
fn extrema_ignore_nan_only_chain() {
    let model = mv_model(1);
    let mut runner = Chains::run(0, &model, 1, 0, 2, bits(&[0.0])).unwrap();
    runner.start_chain();
    runner.record(bits(&[f64::NAN]), None);
    runner.record(bits(&[f64::NAN]), None);
    let chains = runner.finish();
    assert_eq!(chains.extrema(0), (POS_INFINITY, NEG_INFINITY));
}

#[test]
fn posterior_with_too_few_draws_fails() {
    let (chains, _, _) = run_collection(5, 2, 3, 4);
    match chains.sample_posterior(9) {
        Err(SamplingError::InsufficientDraws { requested, available }) => {
            assert_eq!(requested, 9);
            assert_eq!(available, 8);
        }
        _ => panic!("expected InsufficientDraws"),
    }
}

#[test]
fn posterior_selects_evenly_spaced_draws() {
    let (chains, _, _) = run_collection(5, 2, 3, 4);
    let summary = chains.sample_posterior(3).unwrap();
    assert_eq!(summary.parameters, vec!["mu0".to_string(), "mu1".to_string()]);
    assert_eq!(summary.values.len(), 2);
    // total 8, stride 8 / 3 = 2: combined draws 0, 2, 4 (chain 0 draws 0, 2; chain 1 draw 0)
    for p in 0..2 {
        let t = chains.traces(p);
        assert_eq!(summary.values[p], vec![t[0][0], t[0][2], t[1][0]]);
    }
    let again = chains.sample_posterior(3).unwrap();
    assert_eq!(summary.values, again.values);
    let all = chains.sample_posterior(8).unwrap();
    assert_eq!(all.values[1].len(), 8);
    let none = chains.sample_posterior(0).unwrap();
    assert!(none.values.iter().all(|v| v.is_empty()));
    assert_eq!(summary.get("mu1"), Some(&summary.values[1]));
    assert_eq!(summary.get("sigma"), None);
}

#[test]
fn initial_position_of_wrong_length_is_refused() {
    let model = Regression::new(bits(&[1.0, 2.0]), bits(&[3.0, 4.0]));
    match Chains::run(1, &model, 2, 10, 10, bits(&[0.0, 1.0])) {
        Err(e) => assert_eq!(e, SamplingError::DimensionMismatch { expected: 3, found: 2 }),
        Ok(_) => panic!("expected DimensionMismatch"),
    }
    match Run::new(1, 3, 1, 1, bits(&[0.0])) {
        Err(e) => assert_eq!(e, SamplingError::DimensionMismatch { expected: 3, found: 1 }),
        Ok(_) => panic!("expected DimensionMismatch"),
    }
}

#[test]
fn engine_failure_names_the_chain_seed() {
    let model = mv_model(1);
    let mut runner = Chains::run(100, &model, 3, 1, 1, bits(&[0.0])).unwrap();
    runner.start_chain();
    runner.record(bits(&[1.0]), None);
    runner.record(bits(&[2.0]), None);
    assert_eq!(runner.next_action(), Action::StartChain { seed: 101 });
    runner.start_chain();
    assert_eq!(runner.next_action(), Action::Draw { tuning: true });
    assert_eq!(runner.abort(), SamplingError::EngineFatal { seed: 101 });
}

#[test]
fn chains_without_draws_complete_at_once() {
    let model = mv_model(1);
    let mut runner = Chains::run(0, &model, 2, 0, 0, bits(&[0.0])).unwrap();
    runner.start_chain();
    assert_eq!(runner.next_action(), Action::StartChain { seed: 1 });
    runner.start_chain();
    assert_eq!(runner.next_action(), Action::Finished);
    let chains = runner.finish();
    assert_eq!(chains.chains.len(), 2);
    assert!(chains.sample_posterior(1).is_err());
}

#[test]
fn regression_parameters_and_dim() {
    let model = Regression::new(bits(&[1.0, 2.0]), bits(&[3.0, 4.0]));
    assert_eq!(model.dim(), 3);
    assert_eq!(model.parameters(), vec!["alpha".to_string(), "beta".to_string(), "sigma".to_string()]);
    assert_eq!(reals(model.x()), vec![1.0, 2.0]);
    assert_eq!(reals(model.y()), vec![3.0, 4.0]);
    let mv = mv_model(4);
    assert_eq!(mv.dim(), 4);
    assert_eq!(mv.parameters()[3], "mu3");
}

#[test]
fn binary64_order_matches_f64() {
    let cases = [-f64::INFINITY, -2.0, -0.5, 0.0, 1e-300, 0.5, 3.0, f64::INFINITY];
    for a in cases {
        for b in cases {
            assert_eq!(f64::from_bits(min_bits(a.to_bits(), b.to_bits())), a.min(b));
            assert_eq!(f64::from_bits(max_bits(a.to_bits(), b.to_bits())), a.max(b));
        }
    }
    assert_eq!(min_bits(f64::NAN.to_bits(), 1.0f64.to_bits()), 1.0f64.to_bits());
    assert_eq!(max_bits(1.0f64.to_bits(), f64::NAN.to_bits()), 1.0f64.to_bits());
    assert!(is_nan_bits(f64::NAN.to_bits()));
    assert!(!is_nan_bits(f64::INFINITY.to_bits()));
    assert_eq!(min_bits((-0.0f64).to_bits(), 0.0f64.to_bits()) & !(1u64 << 63), 0);
}
