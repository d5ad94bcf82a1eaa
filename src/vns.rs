//! Variable neighborhood search settings.
use vstd::prelude::*;

verus! {

/// Parameters of a variable neighborhood search.
#[derive(Debug, Clone, Copy, PartialEq, Eq, Structural)]
pub struct VnsConfig {
    /// Maximum number of outer iterations.
    pub max_iterations: usize,
    /// Iterations without improvement before stopping.
    pub max_no_improve: usize,
    /// Random seed; `None` for a fixed default.
    pub seed: Option<u64>,
}

impl Default for VnsConfig {
    /// 500 iterations, stop after 200 without improvement, no seed.
    fn default() -> (r: Self)
        ensures
            r == (VnsConfig { max_iterations: 500, max_no_improve: 200, seed: None }),
    {
        VnsConfig { max_iterations: 500, max_no_improve: 200, seed: None }
    }
}

impl VnsConfig {
    /// Sets the maximum number of outer iterations.
    pub fn with_max_iterations(self, n: usize) -> (r: Self)
        ensures
            r == (VnsConfig { max_iterations: n, ..self }),
    {
        VnsConfig { max_iterations: n, ..self }
    }

    /// Sets the number of iterations without improvement before stopping.
    pub fn with_max_no_improve(self, n: usize) -> (r: Self)
        ensures
            r == (VnsConfig { max_no_improve: n, ..self }),
    {
        VnsConfig { max_no_improve: n, ..self }
    }

    /// Sets the random seed.
    pub fn with_seed(self, seed: u64) -> (r: Self)
        ensures
            r == (VnsConfig { seed: Some(seed), ..self }),
    {
        VnsConfig { seed: Some(seed), ..self }
    }
}

/// Names the variable neighborhood search engine.
#[derive(Debug, Clone, Copy, PartialEq, Eq, Structural)]
pub struct VnsRunner;

} // verus!
