//! Recorded chains, and the traces and extrema read from them.
use vstd::prelude::*;

use crate::binary64::{is_nan, le, max_bits, min_bits, lemma_infinities_not_nan, NEG_INFINITY, POS_INFINITY};
use crate::error::SamplingError;
use crate::sampler::MyDivergenceInfo;

verus! {

/// One chain's recorded draws, in the order the engine produced them, and
/// the divergences reported along the way.
pub struct ChainRun {
    /// The seed the chain's engine was started with.
    pub seed: u64,
    /// The recorded draws; each holds one coordinate per parameter.
    pub draws: Vec<Vec<u64>>,
    /// The divergences, in the order of the draws they were reported for.
    pub stats: Vec<MyDivergenceInfo>,
}

impl ChainRun {
    /// Every draw has `dim` coordinates.
    pub open spec fn wf(&self, dim: nat) -> bool {
        forall|i: int| 0 <= i < self.draws@.len() ==> (#[trigger] self.draws@[i])@.len() == dim
    }

    /// Coordinate `p` of draw `i`.
    pub open spec fn value(&self, i: int, p: int) -> u64 {
        self.draws@[i]@[p]
    }

    /// Every draw has a coordinate `p`.
    pub open spec fn has_coordinate(&self, p: int) -> bool {
        forall|i: int| 0 <= i < self.draws@.len() ==> p < (#[trigger] self.draws@[i])@.len()
    }

    /// The values of parameter `p`, in draw order.
    pub open spec fn trace_of(&self, p: int) -> Seq<u64> {
        Seq::new(self.draws@.len(), |i: int| self.value(i, p))
    }

    /// Return the trace for a given parameter.
    pub fn trace(&self, parameter_idx: usize) -> (r: Vec<u64>)
        requires
            self.has_coordinate(parameter_idx as int),
        ensures
            r@ == self.trace_of(parameter_idx as int),
    {
        let mut r: Vec<u64> = Vec::new();
        let mut i: usize = 0;
        while i < self.draws.len()
            invariant
                self.has_coordinate(parameter_idx as int),
                i <= self.draws@.len(),
                r@ == self.trace_of(parameter_idx as int).take(i as int),
            decreases self.draws@.len() - i,
        {
            r.push(self.draws[i][parameter_idx]);
            i += 1;
            assert(r@ =~= self.trace_of(parameter_idx as int).take(i as int));
        }
        assert(r@ =~= self.trace_of(parameter_idx as int));
        r
    }

    /// Return the stats for divergences.
    pub fn stats(&self) -> (r: &Vec<MyDivergenceInfo>)
        ensures
            r == &self.stats,
    {
        &self.stats
    }

    /// The smallest and the largest value of parameter `p` over the draws,
    /// NaNs left aside; `(+inf, -inf)` where there is none.
    pub fn extrema(&self, parameter_idx: usize) -> (r: (u64, u64))
        requires
            self.has_coordinate(parameter_idx as int),
        ensures
            bounds_values(r, self.trace_of(parameter_idx as int)),
    {
        let ghost t = self.trace_of(parameter_idx as int);
        let mut lo: u64 = POS_INFINITY;
        let mut hi: u64 = NEG_INFINITY;
        proof {
            lemma_infinities_not_nan();
        }
        let mut i: usize = 0;
        while i < self.draws.len()
            invariant
                self.has_coordinate(parameter_idx as int),
                t == self.trace_of(parameter_idx as int),
                i <= self.draws@.len(),
                bounds_values((lo, hi), t.take(i as int)),
            decreases self.draws@.len() - i,
        {
            let x = self.draws[i][parameter_idx];
            let ghost old_lo = lo;
            let ghost old_hi = hi;
            lo = min_bits(lo, x);
            hi = max_bits(hi, x);
            i += 1;
            proof {
                let s = t.take(i as int);
                assert(s[i - 1] == x);
                assert(forall|k: int| 0 <= k < i - 1 ==> s[k] == t.take(i - 1)[k]);
                if lo != POS_INFINITY {
                    if lo == x {
                        assert(contains_value(s, lo));
                    } else {
                        assert(lo == old_lo);
                        let k = choose|k: int| 0 <= k < i - 1 && #[trigger] t.take(i - 1)[k] == lo;
                        assert(s[k] == lo);
                    }
                }
                if hi != NEG_INFINITY {
                    if hi == x {
                        assert(contains_value(s, hi));
                    } else {
                        assert(hi == old_hi);
                        let k = choose|k: int| 0 <= k < i - 1 && #[trigger] t.take(i - 1)[k] == hi;
                        assert(s[k] == hi);
                    }
                }
            }
        }
        assert(t.take(i as int) =~= t);
        (lo, hi)
    }
}

/// `v` occurs in `s`.
pub open spec fn contains_value(s: Seq<u64>, v: u64) -> bool {
    exists|k: int| 0 <= k < s.len() && s[k] == v
}

/// `r` is the pair (smallest, largest) of the values of `s` that are not NaN:
/// neither end is a NaN, every such value lies between them, and each end is
/// a value of `s` or, where no value reaches it, the infinity it started from.
pub open spec fn bounds_values(r: (u64, u64), s: Seq<u64>) -> bool {
    &&& !is_nan(r.0)
    &&& !is_nan(r.1)
    &&& forall|k: int| 0 <= k < s.len() && !is_nan(#[trigger] s[k]) ==> le(r.0, s[k]) && le(s[k], r.1)
    &&& r.0 == POS_INFINITY || contains_value(s, r.0)
    &&& r.1 == NEG_INFINITY || contains_value(s, r.1)
}

/// `r` is the pair (smallest, largest) of the values of all the sequences of
/// `ts` that are not NaN, in the sense of `bounds_values`.
pub open spec fn bounds_all(r: (u64, u64), ts: Seq<Seq<u64>>) -> bool {
    &&& !is_nan(r.0)
    &&& !is_nan(r.1)
    &&& forall|c: int, k: int|
        0 <= c < ts.len() && 0 <= k < ts[c].len() && !is_nan(#[trigger] ts[c][k]) ==> le(r.0, ts[c][k]) && le(ts[c][k], r.1)
    &&& r.0 == POS_INFINITY || exists|c: int| 0 <= c < ts.len() && contains_value(#[trigger] ts[c], r.0)
    &&& r.1 == NEG_INFINITY || exists|c: int| 0 <= c < ts.len() && contains_value(#[trigger] ts[c], r.1)
}

/// A collection of chains run on one model: every chain holds the same
/// number of draws, with one coordinate per parameter.
pub struct Chains {
    /// The chains, in the order of their seeds.
    pub chains: Vec<ChainRun>,
    /// The parameter count.
    pub dim: usize,
    /// The draws recorded per chain.
    pub samples: u64,
    /// The parameter names, in coordinate order.
    pub parameters: Vec<String>,
}

impl Chains {
    /// One name per coordinate; every chain has `samples` draws of `dim` coordinates.
    pub open spec fn wf(&self) -> bool {
        &&& self.parameters@.len() == self.dim
        &&& forall|c: int| 0 <= c < self.chains@.len() ==> {
            &&& (#[trigger] self.chains@[c]).wf(self.dim as nat)
            &&& self.chains@[c].draws@.len() == self.samples
        }
    }

    /// The trace of parameter `p` in each chain, in chain order.
    pub open spec fn traces_of(&self, p: int) -> Seq<Seq<u64>> {
        Seq::new(self.chains@.len(), |c: int| self.chains@[c].trace_of(p))
    }

    /// The number of draws over all chains.
    pub open spec fn total(&self) -> nat {
        (self.chains@.len() * self.samples) as nat
    }

    /// Draw `k` of all chains taken one after the other, at coordinate `p`.
    pub open spec fn combined_value(&self, k: int, p: int) -> u64 {
        self.chains@[k / self.samples as int].value(k % self.samples as int, p)
    }

    /// Returns the traces for a given parameter, one per chain, in chain order.
    pub fn traces(&self, i: usize) -> (r: Vec<Vec<u64>>)
        requires
            self.wf(),
            i < self.dim,
        ensures
            r@.len() == self.chains@.len(),
            forall|c: int| 0 <= c < r@.len() ==> (#[trigger] r@[c])@ == self.traces_of(i as int)[c],
    {
        let mut r: Vec<Vec<u64>> = Vec::new();
        let mut c: usize = 0;
        while c < self.chains.len()
            invariant
                self.wf(),
                i < self.dim,
                c <= self.chains@.len(),
                r@.len() == c,
                forall|k: int| 0 <= k < c ==> (#[trigger] r@[k])@ == self.traces_of(i as int)[k],
            decreases self.chains@.len() - c,
        {
            let t = self.chains[c].trace(i);
            r.push(t);
            c += 1;
        }
        r
    }

    /// Returns the extrema for a given parameter, across all chains: the
    /// smallest and the largest value, NaNs left aside, or `(+inf, -inf)`
    /// where there is no value.
    pub fn extrema(&self, parameter_idx: usize) -> (r: (u64, u64))
        requires
            self.wf(),
            parameter_idx < self.dim,
        ensures
            bounds_all(r, self.traces_of(parameter_idx as int)),
            self.chains@.len() == 0 ==> r == (POS_INFINITY, NEG_INFINITY),
    {
        let ghost ts = self.traces_of(parameter_idx as int);
        let mut lo: u64 = POS_INFINITY;
        let mut hi: u64 = NEG_INFINITY;
        proof {
            lemma_infinities_not_nan();
        }
        let mut c: usize = 0;
        while c < self.chains.len()
            invariant
                self.wf(),
                parameter_idx < self.dim,
                ts == self.traces_of(parameter_idx as int),
                c <= self.chains@.len(),
                bounds_all((lo, hi), ts.take(c as int)),
                c == 0 ==> lo == POS_INFINITY && hi == NEG_INFINITY,
            decreases self.chains@.len() - c,
        {
            let (lo_c, hi_c) = self.chains[c].extrema(parameter_idx);
            let ghost old_lo = lo;
            let ghost old_hi = hi;
            lo = min_bits(lo, lo_c);
            hi = max_bits(hi, hi_c);
            c += 1;
            proof {
                let s = ts.take(c as int);
                let prev = ts.take(c - 1);
                assert(s[c - 1] == ts[c - 1]);
                assert(forall|k: int| 0 <= k < c - 1 ==> s[k] == prev[k]);
                assert forall|d: int, k: int|
                    0 <= d < s.len() && 0 <= k < s[d].len() && !is_nan(#[trigger] s[d][k]) implies le(lo, s[d][k]) && le(s[d][k], hi) by {
                    if d < c - 1 {
                        assert(s[d] == prev[d]);
                    } else {
                        assert(s[d] == ts[c - 1]);
                    }
                }
                if lo != POS_INFINITY {
                    if lo == lo_c {
                        assert(contains_value(s[c - 1], lo));
                    } else {
                        assert(lo == old_lo);
                        let d = choose|d: int| 0 <= d < prev.len() && contains_value(#[trigger] prev[d], lo);
                        assert(s[d] == prev[d]);
                    }
                }
                if hi != NEG_INFINITY {
                    if hi == hi_c {
                        assert(contains_value(s[c - 1], hi));
                    } else {
                        assert(hi == old_hi);
                        let d = choose|d: int| 0 <= d < prev.len() && contains_value(#[trigger] prev[d], hi);
                        assert(s[d] == prev[d]);
                    }
                }
            }
        }
        assert(ts.take(c as int) =~= ts);
        (lo, hi)
    }
}

/// Per parameter, in coordinate order, the representative values of the posterior.
pub struct PosteriorSummary {
    /// The parameter names.
    pub parameters: Vec<String>,
    /// `values[p]` holds the values of parameter `p`.
    pub values: Vec<Vec<u64>>,
}

impl PosteriorSummary {
    /// The values of the parameter with this name, if there is one.
    pub fn get(&self, name: &str) -> (r: Option<&Vec<u64>>)
        requires
            self.parameters@.len() == self.values@.len(),
        ensures
            r is Some <==> exists|p: int| 0 <= p < self.parameters@.len() && (#[trigger] self.parameters@[p])@ == name@,
            r is Some ==> exists|p: int|
                0 <= p < self.parameters@.len() && (#[trigger] self.parameters@[p])@ == name@ && *r->Some_0 == self.values@[p],
    {
        let key = name.to_owned();
        let mut p: usize = 0;
        while p < self.parameters.len()
            invariant
                key@ == name@,
                self.parameters@.len() == self.values@.len(),
                p <= self.parameters@.len(),
                forall|q: int| 0 <= q < p ==> (#[trigger] self.parameters@[q])@ != name@,
            decreases self.parameters@.len() - p,
        {
            if self.parameters[p] == key {
                return Some(&self.values[p]);
            }
            p += 1;
        }
        None
    }
}

/// The spacing between selected draws: `n` values are taken `total / n` draws apart.
pub open spec fn stride(total: nat, n: nat) -> nat {
    if n == 0 { 0 } else { total / n }
}

proof fn lemma_pick_in_range(j: nat, n: nat, total: nat, samples: nat, chain_count: nat)
    requires
        j < n,
        n <= total,
        total == chain_count * samples,
    ensures
        j * stride(total, n) < total,
        samples > 0,
        (j * stride(total, n)) / samples < chain_count,
        (j * stride(total, n)) % samples < samples,
{
    let st = stride(total, n);
    assert(st * n <= total) by (nonlinear_arith)
        requires st == total / n, n > 0;
    assert(j * st <= (n - 1) * st) by (nonlinear_arith)
        requires j <= n - 1;
    assert((n - 1) * st == n * st - st) by (nonlinear_arith);
    assert(st >= 1) by (nonlinear_arith)
        requires st == total / n, n > 0, n <= total;
    assert(samples > 0) by (nonlinear_arith)
        requires total == chain_count * samples, total > 0;
    let k = j * st;
    assert(k / samples < chain_count) by (nonlinear_arith)
        requires k < chain_count * samples, samples > 0, k >= 0;
    assert(k % samples < samples) by (nonlinear_arith)
        requires samples > 0;
}

impl Chains {
    /// `summary` holds, for each parameter in order, the `n` values selected
    /// from the combined draws at `0, s, 2s, ...` with `s = total / n`.
    pub open spec fn is_posterior_sample(&self, n: nat, summary: PosteriorSummary) -> bool {
        &&& summary.parameters@ == self.parameters@
        &&& summary.values@.len() == self.dim
        &&& forall|p: int| 0 <= p < self.dim ==> (#[trigger] summary.values@[p])@.len() == n
        &&& forall|p: int, j: int|
            0 <= p < self.dim && 0 <= j < n ==> #[trigger] summary.values@[p]@[j] == self.combined_value(
                j * stride(self.total(), n),
                p,
            )
    }

    /// Select `n` representative values per parameter from the draws of all
    /// chains taken one after the other (chain 0 first): the draws at
    /// `0, s, 2s, ...` with `s = total / n`. Fails where `n` exceeds the
    /// total number of draws. The selection depends on the draws alone.
    pub fn sample_posterior(&self, n: usize) -> (r: Result<PosteriorSummary, SamplingError>)
        requires
            self.wf(),
        ensures
            n > self.total() <==> r == Err::<PosteriorSummary, SamplingError>(
                SamplingError::InsufficientDraws { requested: n, available: self.total() as u128 },
            ),
            r is Ok <==> n <= self.total(),
            r is Ok ==> self.is_posterior_sample(n as nat, r->Ok_0),
    {
        let chain_count: usize = self.chains.len();
        proof {
            let a = chain_count as nat;
            let b = self.samples as nat;
            assert(a * b <= 0xffff_ffff_ffff_ffff * 0xffff_ffff_ffff_ffffnat) by (nonlinear_arith)
                requires a <= 0xffff_ffff_ffff_ffff, b <= 0xffff_ffff_ffff_ffff;
        }
        let total: u128 = chain_count as u128 * self.samples as u128;
        if n as u128 > total {
            return Err(SamplingError::InsufficientDraws { requested: n, available: total });
        }
        let step: u128 = if n == 0 { 0 } else { total / n as u128 };
        let mut values: Vec<Vec<u64>> = Vec::new();
        let mut p: usize = 0;
        while p < self.dim
            invariant
                self.wf(),
                total == self.total(),
                n <= total,
                step == stride(total as nat, n as nat),
                p <= self.dim,
                chain_count == self.chains@.len(),
                values@.len() == p,
                forall|q: int| 0 <= q < p ==> (#[trigger] values@[q])@.len() == n,
                forall|q: int, j: int|
                    0 <= q < p && 0 <= j < n ==> #[trigger] values@[q]@[j] == self.combined_value(j * step, q),
            decreases self.dim - p,
        {
            let mut column: Vec<u64> = Vec::new();
            let mut j: usize = 0;
            while j < n
                invariant
                    self.wf(),
                    total == self.total(),
                    n <= total,
                    step == stride(total as nat, n as nat),
                    p < self.dim,
                    chain_count == self.chains@.len(),
                    j <= n,
                    column@.len() == j,
                    forall|i: int| 0 <= i < j ==> #[trigger] column@[i] == self.combined_value(i * step, p as int),
                decreases n - j,
            {
                proof {
                    lemma_pick_in_range(j as nat, n as nat, total as nat, self.samples as nat, self.chains@.len());
                }
                let k: u128 = j as u128 * step;
                let c: u128 = k / self.samples as u128;
                let d: u128 = k % self.samples as u128;
                assert(c < chain_count);
                assert(d < self.samples);
                let chain = &self.chains[c as usize];
                assert(chain.wf(self.dim as nat) && chain.draws@.len() == self.samples);
                let draw_count: usize = chain.draws.len();
                assert(d < draw_count);
                let x = chain.draws[d as usize][p];
                assert(x == self.combined_value(j * step, p as int));
                column.push(x);
                j += 1;
                assert(column@[j - 1] == self.combined_value((j - 1) * step, p as int));
            }
            values.push(column);
            p += 1;
        }
        let mut parameters: Vec<String> = Vec::new();
        let mut q: usize = 0;
        while q < self.parameters.len()
            invariant
                q <= self.parameters@.len(),
                parameters@ == self.parameters@.take(q as int),
            decreases self.parameters@.len() - q,
        {
            parameters.push(self.parameters[q].clone());
            q += 1;
            assert(parameters@ =~= self.parameters@.take(q as int));
        }
        assert(parameters@ =~= self.parameters@);
        Ok(PosteriorSummary { parameters, values })
    }
}

/// The posterior subsample is determined by the chains and `n` alone: two
/// summaries selected from the same chains with the same `n` are equal.
pub proof fn lemma_posterior_sample_deterministic(chains: Chains, n: nat, a: PosteriorSummary, b: PosteriorSummary)
    requires
        chains.is_posterior_sample(n, a),
        chains.is_posterior_sample(n, b),
    ensures
        a.parameters@ == b.parameters@,
        a.values@.len() == b.values@.len(),
        forall|p: int| 0 <= p < a.values@.len() ==> (#[trigger] a.values@[p])@ == b.values@[p]@,
{
    assert forall|p: int| 0 <= p < a.values@.len() implies (#[trigger] a.values@[p])@ == b.values@[p]@ by {
        assert(a.values@[p]@ =~= b.values@[p]@);
    }
}

/// No draw is selected twice: where `n` does not exceed the number of draws,
/// the positions `j * (total / n)` of the selection grow strictly with `j`
/// and stay below `total`.
pub proof fn lemma_posterior_picks_distinct(total: nat, n: nat, i: nat, j: nat)
    requires
        n <= total,
        i < j < n,
    ensures
        i * stride(total, n) < j * stride(total, n),
        j * stride(total, n) < total,
{
    let st = stride(total, n);
    assert(st >= 1) by (nonlinear_arith)
        requires st == total / n, n > 0, n <= total;
    assert(i * st < j * st) by (nonlinear_arith)
        requires i < j, st >= 1;
    assert(st * n <= total) by (nonlinear_arith)
        requires st == total / n, n > 0;
    assert(j * st < n * st) by (nonlinear_arith)
        requires j < n, st >= 1;
}

} // verus!
