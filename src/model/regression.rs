//! Bayesian linear regression `y = alpha + beta * x + noise`.
use vstd::prelude::*;

use crate::model::Model;

verus! {

/// A regression model: a normal likelihood around `alpha + beta * x` with
/// scale `sigma`, normal priors on the intercept and the slope, and a flat
/// prior on the scale. Observations are binary64 bit patterns.
#[derive(Debug)]
pub struct Regression {
    x: Vec<u64>,
    y: Vec<u64>,
}

impl Regression {
    /// The abscissae.
    pub closed spec fn x_spec(&self) -> Seq<u64> {
        self.x@
    }

    /// The observed values, one per abscissa.
    pub closed spec fn y_spec(&self) -> Seq<u64> {
        self.y@
    }

    /// Create a new regression model from paired observations.
    pub fn new(x: Vec<u64>, y: Vec<u64>) -> (r: Self)
        requires
            x@.len() == y@.len(),
        ensures
            r.x_spec() == x@,
            r.y_spec() == y@,
    {
        Regression { x, y }
    }

    /// The abscissae.
    pub fn x(&self) -> (r: &Vec<u64>)
        ensures
            r@ == self.x_spec(),
    {
        &self.x
    }

    /// The observed values.
    pub fn y(&self) -> (r: &Vec<u64>)
        ensures
            r@ == self.y_spec(),
    {
        &self.y
    }
}

/// The names of the regression's parameters: intercept, slope, noise scale.
pub open spec fn regression_parameters() -> Seq<Seq<char>> {
    seq!["alpha"@, "beta"@, "sigma"@]
}

impl Model for Regression {
    open spec fn is_consistent(&self) -> bool {
        true
    }

    open spec fn dim_spec(&self) -> nat {
        3
    }

    open spec fn parameter_names(&self) -> Seq<Seq<char>> {
        regression_parameters()
    }

    fn dim(&self) -> (r: usize) {
        3
    }

    fn parameters(&self) -> (r: Vec<String>) {
        let r = vec!["alpha".to_owned(), "beta".to_owned(), "sigma".to_owned()];
        proof {
            reveal_strlit("alpha");
            reveal_strlit("beta");
            reveal_strlit("sigma");
            assert(r@.map_values(|s: String| s@) =~= regression_parameters());
        }
        r
    }
}

} // verus!
