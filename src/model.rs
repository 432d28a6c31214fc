//! The models a chain can sample: their dimension, parameter names and data.
//!
//! The log-density and its gradient are evaluated by the engine's side in
//! floating point; here a model is what the orchestration reads of it.
use vstd::prelude::*;

pub mod mv;
pub mod regression;

verus! {

/// What the orchestration needs of a model: its parameter count and the
/// names of its parameters, one per coordinate.
pub trait Model {
    /// The model's data are consistent: one name per coordinate.
    spec fn is_consistent(&self) -> bool;

    /// The parameter count.
    spec fn dim_spec(&self) -> nat;

    /// The parameter names, in coordinate order.
    spec fn parameter_names(&self) -> Seq<Seq<char>>;

    /// Return the parameter count.
    fn dim(&self) -> (r: usize)
        requires
            self.is_consistent(),
        ensures
            r == self.dim_spec(),
    ;

    /// Return the names of the parameters, in coordinate order.
    fn parameters(&self) -> (r: Vec<String>)
        requires
            self.is_consistent(),
        ensures
            r@.len() == self.dim_spec(),
            r@.map_values(|s: String| s@) == self.parameter_names(),
    ;
}

} // verus!
