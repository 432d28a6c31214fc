//! A multivariate normal with unit variance per dimension and unknown mean.
use vstd::prelude::*;

use crate::model::Model;

verus! {

/// Observations of a `dims`-dimensional normal with unit variance; the
/// parameters are the coordinates of its mean. Observations are binary64
/// bit patterns.
#[derive(Debug)]
pub struct MultivariateNormalModel {
    pub observed: Vec<Vec<u64>>,
    pub dims: usize,
    pub parameters: Vec<String>,
}

impl MultivariateNormalModel {
    /// One name per dimension, and `dims` coordinates in every observation.
    pub open spec fn wf(&self) -> bool {
        &&& self.parameters@.len() == self.dims
        &&& forall|i: int| 0 <= i < self.observed@.len() ==> (#[trigger] self.observed@[i])@.len() == self.dims
    }
}

impl Model for MultivariateNormalModel {
    open spec fn is_consistent(&self) -> bool {
        self.wf()
    }

    open spec fn dim_spec(&self) -> nat {
        self.dims as nat
    }

    open spec fn parameter_names(&self) -> Seq<Seq<char>> {
        self.parameters@.map_values(|s: String| s@)
    }

    fn dim(&self) -> (r: usize) {
        self.dims
    }

    fn parameters(&self) -> (r: Vec<String>)
        ensures
            r@ == self.parameters@,
    {
        let mut r: Vec<String> = Vec::new();
        let mut i: usize = 0;
        while i < self.parameters.len()
            invariant
                i <= self.parameters@.len(),
                r@ == self.parameters@.take(i as int),
            decreases self.parameters@.len() - i,
        {
            r.push(self.parameters[i].clone());
            i += 1;
            assert(r@ =~= self.parameters@.take(i as int));
        }
        assert(r@ =~= self.parameters@);
        r
    }
}

} // verus!
