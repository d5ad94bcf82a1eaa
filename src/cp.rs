//! Constraint-programming model values: decision variables, constraints
//! and the plain results a solver reports.
use vstd::prelude::*;

verus! {

/// An integer variable with the domain `[min, max]`.
#[derive(Debug, Clone)]
pub struct IntVar {
    /// Variable name (unique within a model).
    pub name: String,
    /// Minimum value.
    pub min: i64,
    /// Maximum value.
    pub max: i64,
    /// Fixed value, if any.
    pub fixed: Option<i64>,
}

impl IntVar {
    /// A free integer variable with the given bounds.
    pub fn new(name: &str, min: i64, max: i64) -> (r: Self)
        ensures
            r.name@ == name@,
            r.min == min,
            r.max == max,
            r.fixed == None::<i64>,
    {
        IntVar { name: name.to_owned(), min, max, fixed: None }
    }

    /// An integer variable fixed to `value`: its domain is that one value.
    pub fn fixed(name: &str, value: i64) -> (r: Self)
        ensures
            r.name@ == name@,
            r.min == value,
            r.max == value,
            r.fixed == Some(value),
    {
        IntVar { name: name.to_owned(), min: value, max: value, fixed: Some(value) }
    }

    /// Whether the variable is fixed to a single value.
    pub fn is_fixed(&self) -> (r: bool)
        ensures
            r == self.fixed.is_some(),
    {
        self.fixed.is_some()
    }

    /// Domain size, `max - min + 1`.
    pub fn domain_size(&self) -> (r: i64)
        requires
            i64::MIN < self.max - self.min + 1 <= i64::MAX,
        ensures
            r == self.max - self.min + 1,
    {
        self.max - self.min + 1
    }
}

/// A boolean decision variable.
#[derive(Debug, Clone)]
pub struct BoolVar {
    /// Variable name.
    pub name: String,
    /// Fixed value, if any.
    pub fixed: Option<bool>,
}

impl BoolVar {
    /// A free boolean variable.
    pub fn new(name: &str) -> (r: Self)
        ensures
            r.name@ == name@,
            r.fixed == None::<bool>,
    {
        BoolVar { name: name.to_owned(), fixed: None }
    }

    /// A boolean variable fixed to `value`.
    pub fn fixed(name: &str, value: bool) -> (r: Self)
        ensures
            r.name@ == name@,
            r.fixed == Some(value),
    {
        BoolVar { name: name.to_owned(), fixed: Some(value) }
    }
}

/// A point in time with the domain `[min, max]`.
#[derive(Debug, Clone, Copy, PartialEq, Eq, Structural)]
pub struct TimeVar {
    /// Minimum time.
    pub min: i64,
    /// Maximum time.
    pub max: i64,
    /// Fixed value, if any.
    pub fixed: Option<i64>,
}

impl TimeVar {
    /// A free time variable.
    pub fn new(min: i64, max: i64) -> (r: Self)
        ensures
            r == (TimeVar { min, max, fixed: None }),
    {
        TimeVar { min, max, fixed: None }
    }

    /// A time fixed to `value`.
    pub fn fixed(value: i64) -> (r: Self)
        ensures
            r == (TimeVar { min: value, max: value, fixed: Some(value) }),
    {
        TimeVar { min: value, max: value, fixed: Some(value) }
    }

    /// Whether the time is fixed.
    pub fn is_fixed(&self) -> (r: bool)
        ensures
            r == self.fixed.is_some(),
    {
        self.fixed.is_some()
    }
}

/// A length of time with the domain `[min, max]`.
#[derive(Debug, Clone, Copy, PartialEq, Eq, Structural)]
pub struct DurationVar {
    /// Minimum duration.
    pub min: i64,
    /// Maximum duration.
    pub max: i64,
    /// Fixed value, if any.
    pub fixed: Option<i64>,
}

impl DurationVar {
    /// A duration with bounds.
    pub fn new(min: i64, max: i64) -> (r: Self)
        ensures
            r == (DurationVar { min, max, fixed: None }),
    {
        DurationVar { min, max, fixed: None }
    }

    /// A fixed duration.
    pub fn fixed(value: i64) -> (r: Self)
        ensures
            r == (DurationVar { min: value, max: value, fixed: Some(value) }),
    {
        DurationVar { min: value, max: value, fixed: Some(value) }
    }

    /// Whether the duration is fixed.
    pub fn is_fixed(&self) -> (r: bool)
        ensures
            r == self.fixed.is_some(),
    {
        self.fixed.is_some()
    }
}

/// An activity with start, end and duration; it may be optional, with a
/// presence literal. A solver keeps `end = start + duration`.
#[derive(Debug, Clone)]
pub struct IntervalVar {
    /// Variable name.
    pub name: String,
    /// Start time.
    pub start: TimeVar,
    /// End time.
    pub end: TimeVar,
    /// Duration.
    pub duration: DurationVar,
    /// Whether the interval is optional.
    pub is_optional: bool,
    /// Presence literal of an optional interval.
    pub presence: Option<BoolVar>,
}

impl IntervalVar {
    /// A mandatory interval of fixed `duration` that starts in
    /// `[start_min, start_max]` and ends by `end_max`; its end is at least
    /// `start_min + duration`.
    pub fn new(
        name: &str,
        start_min: i64,
        start_max: i64,
        duration: i64,
        end_max: i64,
    ) -> (r: Self)
        requires
            i64::MIN <= start_min + duration <= i64::MAX,
        ensures
            r.name@ == name@,
            r.start == (TimeVar { min: start_min, max: start_max, fixed: None }),
            r.end == (TimeVar { min: (start_min + duration) as i64, max: end_max, fixed: None }),
            r.duration == (DurationVar { min: duration, max: duration, fixed: Some(duration) }),
            !r.is_optional,
            r.presence.is_none(),
    {
        IntervalVar {
            name: name.to_owned(),
            start: TimeVar::new(start_min, start_max),
            end: TimeVar::new(start_min + duration, end_max),
            duration: DurationVar::fixed(duration),
            is_optional: false,
            presence: None,
        }
    }

    /// The same interval made optional, with a free presence literal
    /// named `presence_name`.
    pub fn as_optional(self, presence_name: &str) -> (r: Self)
        ensures
            r.name == self.name,
            r.start == self.start,
            r.end == self.end,
            r.duration == self.duration,
            r.is_optional,
            r.presence.is_some(),
            r.presence.unwrap().name@ == presence_name@,
            r.presence.unwrap().fixed.is_none(),
    {
        let mut s = self;
        s.is_optional = true;
        s.presence = Some(BoolVar::new(presence_name));
        s
    }

    /// The same interval with a free duration in `[min, max]`.
    pub fn with_variable_duration(self, min: i64, max: i64) -> (r: Self)
        ensures
            r.name == self.name,
            r.start == self.start,
            r.end == self.end,
            r.duration == (DurationVar { min, max, fixed: None }),
            r.is_optional == self.is_optional,
            r.presence == self.presence,
    {
        let mut s = self;
        s.duration = DurationVar::new(min, max);
        s
    }
}

/// A constraint of a model; intervals are named.
#[derive(Debug, Clone)]
pub enum Constraint {
    /// No two of the intervals overlap in time.
    NoOverlap {
        /// Names of the intervals.
        intervals: Vec<String>,
    },
    /// At any time the demands of the active intervals sum to at most
    /// `capacity`.
    Cumulative {
        /// Names of the intervals.
        intervals: Vec<String>,
        /// Demand of each interval, parallel to `intervals`.
        demands: Vec<i64>,
        /// Capacity of the resource.
        capacity: i64,
    },
    /// `end(before) + min_delay <= start(after)`.
    Precedence {
        /// The interval that comes first.
        before: String,
        /// The interval that comes after.
        after: String,
        /// Minimum delay between the two.
        min_delay: i64,
    },
    /// The two intervals start together.
    SameStart {
        /// First interval.
        interval1: String,
        /// Second interval.
        interval2: String,
    },
    /// The two intervals end together.
    SameEnd {
        /// First interval.
        interval1: String,
        /// Second interval.
        interval2: String,
    },
    /// The main interval is present exactly when one alternative is.
    Alternative {
        /// The main interval.
        main: String,
        /// Its alternatives.
        alternatives: Vec<String>,
    },
}

/// Status of a solver after it ran.
#[derive(Debug, Clone, Copy, PartialEq, Eq, Structural)]
pub enum SolverStatus {
    /// A proven optimal solution was found.
    Optimal,
    /// A feasible solution was found.
    Feasible,
    /// No feasible solution exists.
    Infeasible,
    /// The model is malformed.
    ModelInvalid,
    /// The time limit was reached.
    Timeout,
    /// No solution, for an unknown reason.
    Unknown,
}

/// The values assigned to one interval.
#[derive(Debug, Clone, Copy, PartialEq, Eq, Structural)]
pub struct IntervalSolution {
    /// Start time.
    pub start: i64,
    /// End time.
    pub end: i64,
    /// Duration.
    pub duration: i64,
    /// Whether an optional interval is present.
    pub is_present: bool,
}

/// Solver limits.
#[derive(Debug, Clone, Copy, PartialEq, Eq, Structural)]
pub struct SolverConfig {
    /// Maximum solve time in milliseconds.
    pub time_limit_ms: i64,
    /// Number of parallel workers.
    pub num_workers: usize,
    /// Stop at the first feasible solution.
    pub stop_after_first: bool,
}

impl Default for SolverConfig {
    /// One worker, a minute, no early stop.
    fn default() -> (r: Self)
        ensures
            r == (SolverConfig { time_limit_ms: 60_000, num_workers: 1, stop_after_first: false }),
    {
        SolverConfig { time_limit_ms: 60_000, num_workers: 1, stop_after_first: false }
    }
}

/// A greedy solver that places intervals one after another.
#[derive(Debug, Clone, Copy, PartialEq, Eq, Structural)]
pub struct SimpleCpSolver;

impl SimpleCpSolver {
    /// The solver; it has no settings.
    pub fn new() -> (r: Self)
        ensures
            r == SimpleCpSolver,
    {
        SimpleCpSolver
    }
}

impl Default for SimpleCpSolver {
    /// Same as [`SimpleCpSolver::new`].
    fn default() -> (r: Self)
        ensures
            r == SimpleCpSolver,
    {
        SimpleCpSolver::new()
    }
}

} // verus!
