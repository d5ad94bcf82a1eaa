//! Tabu search settings.
use vstd::prelude::*;

verus! {

/// Parameters of a tabu search.
#[derive(Debug, Clone, Copy, PartialEq, Eq, Structural)]
pub struct TabuConfig {
    /// Maximum number of iterations.
    pub max_iterations: usize,
    /// Iterations a move stays tabu.
    pub tabu_tenure: usize,
    /// Whether a tabu move that gives a new global best is allowed.
    pub aspiration: bool,
    /// Iterations without improvement before stopping.
    pub max_no_improve: usize,
    /// Random seed; `None` for a fixed default.
    pub seed: Option<u64>,
}

impl Default for TabuConfig {
    /// 500 iterations, tenure 7, aspiration on, stop after 200 without
    /// improvement, no seed.
    fn default() -> (r: Self)
        ensures
            r == (TabuConfig {
                max_iterations: 500,
                tabu_tenure: 7,
                aspiration: true,
                max_no_improve: 200,
                seed: None,
            }),
    {
        TabuConfig {
            max_iterations: 500,
            tabu_tenure: 7,
            aspiration: true,
            max_no_improve: 200,
            seed: None,
        }
    }
}

impl TabuConfig {
    /// Sets the maximum number of iterations.
    pub fn with_max_iterations(self, n: usize) -> (r: Self)
        ensures
            r == (TabuConfig { max_iterations: n, ..self }),
    {
        TabuConfig { max_iterations: n, ..self }
    }

    /// Sets the tabu tenure.
    pub fn with_tabu_tenure(self, tenure: usize) -> (r: Self)
        ensures
            r == (TabuConfig { tabu_tenure: tenure, ..self }),
    {
        TabuConfig { tabu_tenure: tenure, ..self }
    }

    /// Turns the aspiration criterion on or off.
    pub fn with_aspiration(self, aspiration: bool) -> (r: Self)
        ensures
            r == (TabuConfig { aspiration, ..self }),
    {
        TabuConfig { aspiration, ..self }
    }

    /// Sets the number of iterations without improvement before stopping.
    pub fn with_max_no_improve(self, n: usize) -> (r: Self)
        ensures
            r == (TabuConfig { max_no_improve: n, ..self }),
    {
        TabuConfig { max_no_improve: n, ..self }
    }

    /// Sets the random seed.
    pub fn with_seed(self, seed: u64) -> (r: Self)
        ensures
            r == (TabuConfig { seed: Some(seed), ..self }),
    {
        TabuConfig { seed: Some(seed), ..self }
    }
}

/// Names the tabu search engine.
#[derive(Debug, Clone, Copy, PartialEq, Eq, Structural)]
pub struct TabuRunner;

} // verus!
