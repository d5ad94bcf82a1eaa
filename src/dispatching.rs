//! Settings of a priority-rule engine that ranks items.
use vstd::prelude::*;

verus! {

/// How several rules combine into one ranking.
#[derive(Debug, Clone, Copy, PartialEq, Eq, Structural)]
pub enum EvaluationMode {
    /// Rules in order; a later rule only breaks ties of the earlier ones.
    Sequential,
    /// All rules at once, as a weighted sum.
    Weighted,
}

/// How ties left by every rule are broken.
#[derive(Debug, Clone, Copy, PartialEq, Eq, Structural)]
pub enum TieBreaker {
    /// Keep the input order.
    PreserveOrder,
    /// Lower item index first.
    ByIndex,
}

} // verus!
