//! What an analysis answers, and why it declines when it does.
use vstd::prelude::*;

verus! {

/// Why the analysis returned no usable bound.
///
/// `NonConvergent` and `ExceedsDeadline` are claims about the task set;
/// `IterationLimit`, `BusyPeriodLimit` and `Overflow` say that this
/// implementation stopped, and where.
#[derive(Clone, Copy, Debug, PartialEq, Eq, Structural)]
pub enum AnalysisFailure {
    /// Utilisation through this priority level exceeds one, or is exactly one
    /// with blocking or jitter in the level, so the busy-period recurrence
    /// has no fixed point.
    NonConvergent,
    /// A fixed-point search did not settle within [`crate::ITERATION_CAP`].
    IterationLimit,
    /// The busy period closed and holds more jobs of the task than
    /// [`crate::BUSY_PERIOD_CAP`]; enumerating them was declined.
    BusyPeriodLimit,
    /// The recurrence converged above the deadline. The value is the true
    /// response time of a task that misses.
    ExceedsDeadline(u64),
    /// Checked arithmetic refused rather than wrapping.
    Overflow,
    /// The index addresses no admitted task.
    NoSuchTask,
}

impl AnalysisFailure {
    /// Whether the refusal establishes something about the task set: a
    /// response past the deadline, or a level with no fixed point. The other
    /// refusals say only where this implementation stopped.
    pub open spec fn determinate(self) -> bool {
        self is ExceedsDeadline || self is NonConvergent
    }

    /// Whether this refusal is a finding about the task set rather than a
    /// limit of the analysis.
    pub fn is_determinate(&self) -> (b: bool)
        ensures
            b == self.determinate(),
    {
        match self {
            AnalysisFailure::ExceedsDeadline(_) => true,
            AnalysisFailure::NonConvergent => true,
            _ => false,
        }
    }
}

/// The result of a response-time computation.
#[derive(Clone, Copy, Debug, PartialEq, Eq, Structural)]
pub enum Response {
    /// A proven upper bound, in microseconds, at or below the deadline.
    Bounded(u64),
    /// No usable bound, and why.
    Refused(AnalysisFailure),
}

impl Response {
    /// The response time an answer carries: the bound, or the value past the
    /// deadline.
    pub open spec fn response_time_spec(self) -> Option<u64> {
        match self {
            Response::Bounded(r) => Some(r),
            Response::Refused(AnalysisFailure::ExceedsDeadline(r)) => Some(r),
            Response::Refused(_) => None,
        }
    }

    /// Whether this response meets a deadline. Every refusal fails every
    /// comparison.
    pub fn meets(&self, deadline_us: u64) -> (m: bool)
        ensures
            m == (match *self {
                Response::Bounded(r) => r <= deadline_us,
                Response::Refused(_) => false,
            }),
    {
        match self {
            Response::Bounded(r) => *r <= deadline_us,
            Response::Refused(_) => false,
        }
    }

    /// The bound, if there is one at or below the deadline.
    pub fn bound(&self) -> (b: Option<u64>)
        ensures
            b == (match *self {
                Response::Bounded(r) => Some(r),
                Response::Refused(_) => None,
            }),
    {
        match self {
            Response::Bounded(r) => Some(*r),
            Response::Refused(_) => None,
        }
    }

    /// The response time whether or not it meets the deadline: the bound, or
    /// the value an `ExceedsDeadline` carries.
    pub fn response_time(&self) -> (t: Option<u64>)
        ensures
            t == self.response_time_spec(),
    {
        match self {
            Response::Bounded(r) => Some(*r),
            Response::Refused(AnalysisFailure::ExceedsDeadline(r)) => Some(*r),
            Response::Refused(_) => None,
        }
    }

    /// Whether a bound at or below the deadline was found.
    pub fn is_bounded(&self) -> (b: bool)
        ensures
            b == (*self is Bounded),
    {
        match self {
            Response::Bounded(_) => true,
            Response::Refused(_) => false,
        }
    }

    /// Why there is no bound, if there is none.
    pub fn reason(&self) -> (why: Option<AnalysisFailure>)
        ensures
            why == (match *self {
                Response::Refused(u) => Some(u),
                Response::Bounded(_) => None,
            }),
    {
        match self {
            Response::Refused(u) => Some(*u),
            Response::Bounded(_) => None,
        }
    }
}

/// What Audsley's priority search found.
#[derive(Clone, Copy, Debug, PartialEq, Eq)]
pub enum PriorityAssignment {
    /// The set's indices in priority order, highest first, in the first
    /// `len()` slots; the remaining slots hold zero. Every task meets its
    /// deadline in this order.
    Found([usize; crate::MAX_TASKS]),
    /// At some level every remaining candidate was shown to miss: each was
    /// refused with a response past its deadline or with no fixed point.
    NoOrdering,
    /// At some level no remaining candidate was shown to fit, and at least one
    /// was refused by a limit of the analysis rather than shown to miss. The
    /// first such refusal, by index, is carried.
    Inconclusive(AnalysisFailure),
}

impl PriorityAssignment {
    /// Whether the search proved that no fixed-priority ordering of the set
    /// meets every deadline at the level where it stopped.
    pub fn is_proven_impossible(&self) -> (b: bool)
        ensures
            b == (*self is NoOrdering),
    {
        match self {
            PriorityAssignment::NoOrdering => true,
            _ => false,
        }
    }
}

/// Why a task was refused admission to a set.
#[derive(Clone, Copy, Debug, PartialEq, Eq, Structural)]
pub enum Rejected {
    /// The set already holds [`crate::MAX_TASKS`] tasks.
    Full,
    /// A period of zero.
    ZeroPeriod,
    /// Execution longer than the deadline; no scheduling fixes it.
    ExecutionExceedsDeadline,
}

} // verus!
