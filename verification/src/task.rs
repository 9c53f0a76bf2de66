//! A periodic or sporadic task, in whole microseconds.
use vstd::prelude::*;

use crate::FULL_UTILISATION_PPM;

verus! {

/// A periodic or sporadic task, in microseconds throughout.
///
/// Construct with [`Task::new`] and the chaining setters, which give a task
/// whose unset terms are zero.
#[derive(Clone, Copy, Debug, PartialEq, Eq)]
pub struct Task {
    /// Worst-case execution time. An input, not a measurement made here.
    pub wcet_us: u64,
    /// Activation period, or minimum inter-arrival time for a sporadic task.
    pub period_us: u64,
    /// Relative deadline. May be shorter or longer than the period.
    pub deadline_us: u64,
    /// Longest time the task can be blocked by lower-priority work holding a
    /// shared resource.
    pub blocking_us: u64,
    /// Release jitter: the longest delay between nominal and actual release.
    pub jitter_us: u64,
    /// A label carried into reports.
    pub name: &'static str,
}

impl Task {
    /// The utilisation of the task in parts per million: `⌊C · 10⁶ / T⌋`, or
    /// `None` when the period is zero or `C · 10⁶` does not fit in a `u64`.
    pub open spec fn utilisation_spec(self) -> Option<u64> {
        if self.period_us == 0 {
            None
        } else if self.wcet_us * FULL_UTILISATION_PPM > u64::MAX {
            None
        } else {
            Some(((self.wcet_us * FULL_UTILISATION_PPM) / (self.period_us as int)) as u64)
        }
    }

    /// A task with the given execution time and period.
    ///
    /// Deadline equals the period; blocking and jitter are zero; the name is
    /// empty.
    pub fn new(wcet_us: u64, period_us: u64) -> (t: Self)
        ensures
            t.wcet_us == wcet_us,
            t.period_us == period_us,
            t.deadline_us == period_us,
            t.blocking_us == 0,
            t.jitter_us == 0,
            t.name@ == Seq::<char>::empty(),
    {
        let name = "";
        proof {
            reveal_strlit("");
        }
        Task { wcet_us, period_us, deadline_us: period_us, blocking_us: 0, jitter_us: 0, name }
    }

    /// Set the relative deadline.
    pub fn deadline(self, deadline_us: u64) -> (t: Self)
        ensures
            t == (Task { deadline_us, ..self }),
    {
        let mut t = self;
        t.deadline_us = deadline_us;
        t
    }

    /// Set the blocking term.
    pub fn blocking(self, blocking_us: u64) -> (t: Self)
        ensures
            t == (Task { blocking_us, ..self }),
    {
        let mut t = self;
        t.blocking_us = blocking_us;
        t
    }

    /// Set the release jitter.
    pub fn jitter(self, jitter_us: u64) -> (t: Self)
        ensures
            t == (Task { jitter_us, ..self }),
    {
        let mut t = self;
        t.jitter_us = jitter_us;
        t
    }

    /// Set the label.
    pub fn named(self, name: &'static str) -> (t: Self)
        ensures
            t == (Task { name, ..self }),
    {
        let mut t = self;
        t.name = name;
        t
    }

    /// The utilisation of the task in parts per million, or `None` if the period
    /// is zero or the arithmetic overflows.
    pub fn utilisation_ppm(&self) -> (u: Option<u64>)
        ensures
            u == self.utilisation_spec(),
            u is None <==> (self.period_us == 0 || self.wcet_us * 1_000_000 > u64::MAX),
            u matches Some(v) ==> v * self.period_us <= self.wcet_us * 1_000_000 < (v + 1)
                * self.period_us,
    {
        if self.period_us == 0 {
            return None;
        }
        match self.wcet_us.checked_mul(FULL_UTILISATION_PPM) {
            Some(n) => {
                let v = n / self.period_us;
                proof {
                    lemma_floor_ratio(n as int, self.period_us as int);
                }
                Some(v)
            },
            None => None,
        }
    }
}

/// `⌊n / t⌋` is the one `v` with `v·t ≤ n < (v + 1)·t`.
pub proof fn lemma_floor_ratio(n: int, t: int)
    requires
        n >= 0,
        t > 0,
    ensures
        (n / t) * t <= n < (n / t + 1) * t,
{
    vstd::arithmetic::div_mod::lemma_fundamental_div_mod(n, t);
    vstd::arithmetic::div_mod::lemma_mod_bound(n, t);
    let q = n / t;
    assert(t * q == q * t && (q + 1) * t == q * t + t) by (nonlinear_arith);
}

} // verus!
