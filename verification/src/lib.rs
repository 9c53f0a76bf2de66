//! Worst-case response time for a fixed-priority task set on one core, in
//! checked integer arithmetic that refuses rather than rounds or wraps.
//!
//! The recurrence solved is the jitter-extended form over the level-i busy
//! period:
//!
//! ```text
//! L    = B + Σ ⌈(L + Jⱼ)/Tⱼ⌉ · Cⱼ                 this level and above
//! w(q) = (q+1)·C + B + Σ ⌈(w(q) + Jⱼ)/Tⱼ⌉ · Cⱼ    every j above
//! R(q) = w(q) − q·T + J
//! R    = max R(q)   over the jobs of the busy period
//! ```
//!
//! `model` states that arithmetic as spec functions, `task` and `response`
//! hold the value types, `taskset` the analysis itself, and `laws` the
//! properties the analysis keeps across inputs and calls.
use vstd::prelude::*;

pub mod assignment;
pub mod exact;
pub mod laws;
pub mod model;
pub mod monotone;
pub mod response;
pub mod symmetry;
pub mod task;
pub mod taskset;
pub mod table;
pub mod text;
pub mod wide;

pub use response::{AnalysisFailure, PriorityAssignment, Rejected, Response};
pub use task::Task;
pub use taskset::TaskSet;

verus! {

/// The largest task set this crate will analyse.
///
/// The point past which a fixed-priority set on one core stops being
/// checkable by hand.
pub const MAX_TASKS: usize = 16;

/// One hundred per cent utilisation, expressed in parts per million.
pub const FULL_UTILISATION_PPM: u64 = 1_000_000;

/// The iteration ceiling on each fixed-point search.
///
/// Reaching it is reported as [`AnalysisFailure::IterationLimit`], a
/// statement about this implementation and not about the task set.
pub const ITERATION_CAP: u32 = 10_000;

/// How many jobs of one task a level-i busy period may contain before the
/// analysis refuses to enumerate them.
pub const BUSY_PERIOD_CAP: u64 = 1_024;

} // verus!
