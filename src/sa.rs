//! Simulated annealing.
use vstd::prelude::*;

verus! {

/// Names the simulated annealing engine.
#[derive(Debug, Clone, Copy, PartialEq, Eq, Structural)]
pub struct SaRunner;

} // verus!
