//! Metaheuristic optimization building blocks.
//!
//! The heart of the crate is the control logic of Adaptive Large
//! Neighborhood Search ([`alns`]): acceptance tiers, the best-cost
//! history, segment boundaries and cancellation. Costs enter it as the
//! bit patterns of IEEE-754 doubles and are ordered by [`cost`].
//! Around it stand the value types of a constraint-programming layer
//! ([`cp`]), permutation crossover and mutation ([`ga`]) and the configurations of
//! tabu search and variable neighborhood search.

pub mod alns;
pub mod cost;
pub mod cp;
pub mod dispatching;
pub mod ga;
pub mod sa;
pub mod tabu;
pub mod vns;
