//! Control logic of Adaptive Large Neighborhood Search.
//!
//! One run keeps a current and a best cost, counts iterations and new
//! bests, closes a segment every `segment_length` iterations and samples
//! the best cost at each segment end. Costs are the bits of doubles,
//! ordered by [`crate::cost`]. The caller keeps the solutions, draws the
//! random numbers and holds the operator weights; it asks this module
//! which acceptance tier a candidate falls in and hands back whether the
//! annealing gate let a non-improving candidate through.
use vstd::prelude::*;
use crate::cost::{cost_less, cost_lt, rank};

verus! {

/// The acceptance tier of a candidate, in priority order.
#[derive(Debug, Clone, Copy, PartialEq, Eq, Structural)]
pub enum Tier {
    /// Strictly below the best cost: always accepted.
    NewBest,
    /// Not below the best, strictly below the current cost: always accepted.
    Improved,
    /// Neither: accepted only if the annealing gate lets it through.
    Gated,
}

/// The reward tier credited to the operators that produced a candidate.
#[derive(Debug, Clone, Copy, PartialEq, Eq, Structural)]
pub enum Reward {
    /// A new best was found.
    NewBest,
    /// The current solution improved.
    Improved,
    /// A non-improving candidate passed the annealing test.
    Accepted,
    /// The candidate was rejected (reward zero).
    Rejected,
}

/// Where a run stands.
#[derive(Debug, Clone, Copy, PartialEq, Eq, Structural)]
pub enum Phase {
    /// Iterations remain and no cancellation was seen.
    Running,
    /// The iteration budget is spent.
    Completed,
    /// The cancellation flag was seen at an iteration boundary.
    Cancelled,
}

/// The tier of `candidate` against the `current` and `best` costs.
pub open spec fn tier_of(candidate: u64, current: u64, best: u64) -> Tier {
    if cost_lt(candidate, best) {
        Tier::NewBest
    } else if cost_lt(candidate, current) {
        Tier::Improved
    } else {
        Tier::Gated
    }
}

/// The reward earned by a candidate of tier `t`; `gate_accepts` is the annealing verdict.
pub open spec fn reward_of(t: Tier, gate_accepts: bool) -> Reward {
    match t {
        Tier::NewBest => Reward::NewBest,
        Tier::Improved => Reward::Improved,
        Tier::Gated => if gate_accepts {
            Reward::Accepted
        } else {
            Reward::Rejected
        },
    }
}

/// Whether a candidate of tier `t` replaces the current solution.
pub open spec fn accepts(t: Tier, gate_accepts: bool) -> bool {
    t != Tier::Gated || gate_accepts
}

/// Each cost of `s` is at or below every cost before it.
pub open spec fn non_increasing(s: Seq<u64>) -> bool {
    forall|i: int, j: int| 0 <= i < j < s.len() ==> rank(#[trigger] s[j]) <= rank(#[trigger] s[i])
}

/// Segment length as used by a run: never below one.
pub open spec fn effective_segment(segment_length: usize) -> usize {
    if segment_length == 0 {
        1
    } else {
        segment_length
    }
}

/// A candidate strictly below the best cost is accepted whatever the
/// annealing gate says, so at every temperature, however low.
pub proof fn lemma_new_best_always_accepted(candidate: u64, current: u64, best: u64, gate_accepts: bool)
    requires
        cost_lt(candidate, best),
    ensures
        tier_of(candidate, current, best) == Tier::NewBest,
        accepts(tier_of(candidate, current, best), gate_accepts),
        reward_of(tier_of(candidate, current, best), gate_accepts) == Reward::NewBest,
{
}

/// In a run, where the current cost is never below the best, a candidate
/// strictly above the current cost goes to the annealing test; if the test
/// refuses it, it earns nothing and is not taken.
pub proof fn lemma_worse_than_current_is_gated(candidate: u64, current: u64, best: u64)
    requires
        !cost_lt(current, best),
        cost_lt(current, candidate),
    ensures
        tier_of(candidate, current, best) == Tier::Gated,
        reward_of(tier_of(candidate, current, best), false) == Reward::Rejected,
        !accepts(tier_of(candidate, current, best), false),
{
}

/// Classifies a candidate cost against the current and best costs.
pub fn classify(candidate: u64, current: u64, best: u64) -> (t: Tier)
    ensures
        t == tier_of(candidate, current, best),
{
    if cost_less(candidate, best) {
        Tier::NewBest
    } else if cost_less(candidate, current) {
        Tier::Improved
    } else {
        Tier::Gated
    }
}

/// What one iteration decided.
#[derive(Debug, Clone, Copy, PartialEq, Eq, Structural)]
pub struct StepOutcome {
    /// The candidate's tier.
    pub tier: Tier,
    /// The reward both selected operators record.
    pub reward: Reward,
    /// Whether the candidate became the current solution.
    pub accepted: bool,
    /// Whether this iteration closed a segment: the caller updates the
    /// operator weights now.
    pub segment_end: bool,
}

/// The state of one run.
#[derive(Debug, Clone)]
pub struct SearchLoop {
    /// Iteration budget.
    pub max_iterations: usize,
    /// Iterations per segment, at least one.
    pub segment_length: usize,
    /// Iterations completed.
    pub iteration: usize,
    /// Cost of the current solution.
    pub current_cost: u64,
    /// Cost of the best solution.
    pub best_cost: u64,
    /// Number of new bests found.
    pub improvements: usize,
    /// Whether the run was cancelled.
    pub cancelled: bool,
    /// The best cost at the start and at each segment end.
    pub history: Vec<u64>,
}

/// What a run hands back when it ends.
#[derive(Debug, Clone)]
pub struct SearchSummary {
    /// Cost of the best solution.
    pub best_cost: u64,
    /// Iterations done.
    pub iterations: usize,
    /// Number of new bests found.
    pub improvements: usize,
    /// Whether the run was cancelled.
    pub cancelled: bool,
    /// Sampled best costs, non-increasing.
    pub history: Vec<u64>,
}

impl SearchLoop {
    /// The invariant of a run.
    pub open spec fn wf(&self) -> bool {
        &&& self.segment_length >= 1
        &&& self.iteration <= self.max_iterations
        &&& self.improvements <= self.iteration
        &&& !cost_lt(self.current_cost, self.best_cost)
        &&& self.history@.len() == 1 + self.iteration / self.segment_length
        &&& non_increasing(self.history@)
        &&& forall|i: int| 0 <= i < self.history@.len() ==> rank(self.best_cost) <= rank(#[trigger] self.history@[i])
    }

    /// The phase the run is in.
    pub open spec fn phase_of(&self) -> Phase {
        if self.cancelled {
            Phase::Cancelled
        } else if self.iteration < self.max_iterations {
            Phase::Running
        } else {
            Phase::Completed
        }
    }

    /// Starts a run from the cost of the initial solution. A
    /// `segment_length` of zero is taken as one.
    pub fn new(max_iterations: usize, segment_length: usize, initial_cost: u64) -> (r: Self)
        ensures
            r.wf(),
            r.max_iterations == max_iterations,
            r.segment_length == effective_segment(segment_length),
            r.iteration == 0,
            r.current_cost == initial_cost,
            r.best_cost == initial_cost,
            r.improvements == 0,
            !r.cancelled,
            r.history@ == seq![initial_cost],
    {
        let seg: usize = if segment_length == 0 { 1 } else { segment_length };
        let mut history: Vec<u64> = Vec::new();
        history.push(initial_cost);
        SearchLoop {
            max_iterations,
            segment_length: seg,
            iteration: 0,
            current_cost: initial_cost,
            best_cost: initial_cost,
            improvements: 0,
            cancelled: false,
            history,
        }
    }

    /// The phase the run is in.
    pub fn phase(&self) -> (p: Phase)
        ensures
            p == self.phase_of(),
    {
        if self.cancelled {
            Phase::Cancelled
        } else if self.iteration < self.max_iterations {
            Phase::Running
        } else {
            Phase::Completed
        }
    }

    /// Whether another iteration is due.
    pub fn is_running(&self) -> (r: bool)
        ensures
            r == (self.phase_of() == Phase::Running),
    {
        !self.cancelled && self.iteration < self.max_iterations
    }

    /// Records that the cancellation flag was seen: the run ends here.
    pub fn cancel(&mut self)
        requires
            old(self).wf(),
            old(self).phase_of() == Phase::Running,
        ensures
            final(self).wf(),
            *final(self) == (SearchLoop { cancelled: true, ..*old(self) }),
            final(self).phase_of() == Phase::Cancelled,
    {
        self.cancelled = true;
    }

    /// The tier of a candidate against this run's costs.
    pub fn tier(&self, candidate: u64) -> (t: Tier)
        ensures
            t == tier_of(candidate, self.current_cost, self.best_cost),
    {
        classify(candidate, self.current_cost, self.best_cost)
    }

    /// Applies one iteration: the candidate's cost and, for a candidate of
    /// the gated tier, whether the annealing gate accepted it (ignored for
    /// the other tiers). Samples the best cost when a segment closes.
    pub fn step(&mut self, candidate: u64, gate_accepts: bool) -> (out: StepOutcome)
        requires
            old(self).wf(),
            old(self).phase_of() == Phase::Running,
        ensures
            final(self).wf(),
            out.tier == tier_of(candidate, old(self).current_cost, old(self).best_cost),
            out.reward == reward_of(out.tier, gate_accepts),
            out.accepted == accepts(out.tier, gate_accepts),
            out.tier == Tier::NewBest ==> out.accepted,
            final(self).iteration == old(self).iteration + 1,
            out.segment_end == (final(self).iteration % old(self).segment_length == 0),
            final(self).current_cost == (if out.accepted {
                candidate
            } else {
                old(self).current_cost
            }),
            final(self).best_cost == (if out.tier == Tier::NewBest {
                candidate
            } else {
                old(self).best_cost
            }),
            final(self).improvements == old(self).improvements + (if out.tier == Tier::NewBest {
                1int
            } else {
                0int
            }),
            final(self).history@ == (if out.segment_end {
                old(self).history@.push(final(self).best_cost)
            } else {
                old(self).history@
            }),
            final(self).max_iterations == old(self).max_iterations,
            final(self).segment_length == old(self).segment_length,
            final(self).cancelled == old(self).cancelled,
    {
        let t = classify(candidate, self.current_cost, self.best_cost);
        let reward = match t {
            Tier::NewBest => Reward::NewBest,
            Tier::Improved => Reward::Improved,
            Tier::Gated => if gate_accepts {
                Reward::Accepted
            } else {
                Reward::Rejected
            },
        };
        let accepted = match t {
            Tier::Gated => gate_accepts,
            _ => true,
        };
        let ghost old_best = self.best_cost;
        if accepted {
            self.current_cost = candidate;
        }
        if t == Tier::NewBest {
            self.best_cost = candidate;
            self.improvements = self.improvements + 1;
        }
        let ghost old_iter = self.iteration;
        self.iteration = self.iteration + 1;
        let segment_end = self.iteration % self.segment_length == 0;
        proof {
            lemma_div_step(old_iter as int, self.segment_length as int);
        }
        if segment_end {
            self.history.push(self.best_cost);
        }
        proof {
            assert(rank(self.best_cost) <= rank(old_best));
            let h = self.history@;
            assert forall|i: int, j: int| 0 <= i < j < h.len() implies rank(#[trigger] h[j]) <= rank(
                #[trigger] h[i],
            ) by {
                if j == h.len() - 1 && segment_end {
                    assert(h[j] == self.best_cost);
                }
            }
        }
        StepOutcome { tier: t, reward, accepted, segment_end }
    }

    /// Ends a completed or cancelled run and reports the iterations done.
    /// `drift_exceeds` tells whether the last sample differs
    /// from the best cost by more than the caller's tolerance; if so the
    /// best cost is sampled once more.
    pub fn finish(self, drift_exceeds: bool) -> (s: SearchSummary)
        requires
            self.wf(),
            self.phase_of() != Phase::Running,
        ensures
            s.best_cost == self.best_cost,
            s.improvements == self.improvements,
            s.cancelled == self.cancelled,
            s.history@ == (if drift_exceeds {
                self.history@.push(self.best_cost)
            } else {
                self.history@
            }),
            s.iterations == self.iteration,
            !self.cancelled ==> s.iterations == self.max_iterations,
            non_increasing(s.history@),
            s.history@.len() >= 1,
    {
        let mut history = self.history;
        if drift_exceeds {
            history.push(self.best_cost);
        }
        proof {
            let h = history@;
            assert forall|i: int, j: int| 0 <= i < j < h.len() implies rank(#[trigger] h[j]) <= rank(
                #[trigger] h[i],
            ) by {
                if j == h.len() - 1 && drift_exceeds {
                    assert(h[j] == self.best_cost);
                }
            }
        }
        let iterations: usize = self.iteration;
        SearchSummary {
            best_cost: self.best_cost,
            iterations,
            improvements: self.improvements,
            cancelled: self.cancelled,
            history,
        }
    }
}

/// Moving from `i` to `i + 1` iterations adds a sample exactly when
/// `i + 1` is a multiple of the segment length.
proof fn lemma_div_step(i: int, d: int)
    requires
        i >= 0,
        d >= 1,
    ensures
        (i + 1) / d == i / d + (if (i + 1) % d == 0 {
            1int
        } else {
            0int
        }),
{
    let q = i / d;
    let r = i % d;
    vstd::arithmetic::div_mod::lemma_fundamental_div_mod(i, d);
    vstd::arithmetic::div_mod::lemma_mod_bound(i, d);
    assert(i == q * d + r) by (nonlinear_arith)
        requires
            i == d * q + r,
    ;
    if r + 1 < d {
        vstd::arithmetic::div_mod::lemma_fundamental_div_mod_converse(i + 1, d, q, r + 1);
    } else {
        assert(i + 1 == (q + 1) * d + 0) by (nonlinear_arith)
            requires
                i == q * d + r,
                r + 1 == d,
        ;
        vstd::arithmetic::div_mod::lemma_fundamental_div_mod_converse(i + 1, d, q + 1, 0);
    }
}

/// Names the ALNS engine. A run's decisions are taken by a [`SearchLoop`];
/// the caller's driver owns the solutions, the operators and their weights.
pub struct AlnsRunner;

} // verus!
