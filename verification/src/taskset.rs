//! A fixed-priority task set and the response-time analysis over it.
use vstd::prelude::*;

use crate::model::{
    admissible, busy_period, cap, ceil_div, demand_term, job_base, job_response, jobs_in_busy_period,
    lemma_ceil_div_basics, lemma_demand_nonneg, lemma_prefix_valid, lemma_sum_bounds_term,
    lemma_sum_prefix_mono, lemma_sum_take_step, lemma_worst_response_err_persists, level_utilisation, liu_layland_premises, fits_with_extra, with_wcet, liu_layland_table, passes_liu_layland, audsley, audsley_limit, disturbed, jitter_term, first_fit, first_limit, priority_limit, fits_at_bottom, others_above, trial_set, priority_order, lemma_others_above_len, lemma_first_fit_skip, recurrence, releases,
    response_spec, schedulable, solve, sum_of, util_term, valid_tasks, wcet_term, windows_fit,
    worst_response,
};
use crate::exact::{
    exactly_within, lemma_exact_compare, lemma_exact_split, rem_den, rem_num, remainder,
    rounded_term,
};
use crate::monotone::periods_positive;
use crate::wide::{limbs_ok, wide_add, wide_from, wide_le, wide_mul_word, wide_value};
use crate::response::{AnalysisFailure, PriorityAssignment, Rejected, Response};
use crate::task::Task;
use vstd::std_specs::iter::IteratorSpec;
use crate::{BUSY_PERIOD_CAP, FULL_UTILISATION_PPM, ITERATION_CAP, MAX_TASKS};

verus! {

/// A fixed-priority task set, highest priority first.
///
/// Priority is position: index 0 preempts everything, index 1 everything
/// below it. Only admissible tasks are admitted, and at most [`MAX_TASKS`].
#[derive(Debug)]
pub struct TaskSet {
    tasks: Vec<Task>,
}

impl View for TaskSet {
    type V = Seq<Task>;

    closed spec fn view(&self) -> Seq<Task> {
        self.tasks@
    }
}

impl Clone for TaskSet {
    fn clone(&self) -> (s: Self)
        ensures
            s@ == self@,
    {
        proof {
            use_type_invariant(self);
        }
        let mut tasks: Vec<Task> = Vec::new();
        let mut j: usize = 0;
        while j < self.tasks.len()
            invariant
                valid_tasks(self@),
                j <= self@.len(),
                tasks@ == self@.take(j as int),
            decreases self@.len() - j,
        {
            tasks.push(self.tasks[j]);
            j = j + 1;
            proof {
                assert(tasks@ =~= self@.take(j as int));
            }
        }
        proof {
            assert(self@.take(j as int) =~= self@);
        }
        TaskSet { tasks }
    }
}

impl Default for TaskSet {
    fn default() -> (s: Self)
        ensures
            s@ == Seq::<Task>::empty(),
    {
        TaskSet::new()
    }
}

impl TaskSet {
    #[verifier::type_invariant]
    spec fn holds_valid_tasks(self) -> bool {
        valid_tasks(self.tasks@)
    }

    /// An empty set.
    pub fn new() -> (s: Self)
        ensures
            s@ == Seq::<Task>::empty(),
    {
        TaskSet { tasks: Vec::new() }
    }

    /// Number of admitted tasks. Every set holds tasks a set can admit.
    pub fn len(&self) -> (n: usize)
        ensures
            n == self@.len(),
            n <= MAX_TASKS,
            valid_tasks(self@),
    {
        proof {
            use_type_invariant(self);
        }
        self.tasks.len()
    }

    /// Whether the set is empty.
    pub fn is_empty(&self) -> (b: bool)
        ensures
            b == (self@.len() == 0),
    {
        self.tasks.len() == 0
    }

    /// The task at a priority position, if there is one.
    pub fn get(&self, index: usize) -> (t: Option<&Task>)
        ensures
            index < self@.len() ==> t == Some(&self@[index as int]),
            index >= self@.len() ==> t is None,
    {
        if index < self.tasks.len() {
            Some(&self.tasks[index])
        } else {
            None
        }
    }

    /// Every admitted task, highest priority first.
    pub fn iter(&self) -> (it: std::slice::Iter<'_, Task>)
        ensures
            it.remaining().unref() == self@,
    {
        let it = self.tasks.as_slice().iter();
        proof {
            broadcast use vstd::std_specs::slice::axiom_spec_slice_iter;
        }
        it
    }

    /// Admit a task at the next lowest priority, or say why not.
    ///
    /// A refused task leaves the set unchanged.
    pub fn push(&mut self, t: Task) -> (r: Result<(), Rejected>)
        ensures
            r == (if old(self)@.len() >= MAX_TASKS {
                Err(Rejected::Full)
            } else if t.period_us == 0 {
                Err(Rejected::ZeroPeriod)
            } else if t.wcet_us > t.deadline_us {
                Err(Rejected::ExecutionExceedsDeadline)
            } else {
                Ok(())
            }),
            r is Ok ==> final(self)@ == old(self)@.push(t),
            r is Err ==> final(self)@ == old(self)@,
    {
        proof {
            use_type_invariant(&*self);
        }
        if self.tasks.len() >= MAX_TASKS {
            return Err(Rejected::Full);
        }
        if t.period_us == 0 {
            return Err(Rejected::ZeroPeriod);
        }
        if t.wcet_us > t.deadline_us {
            return Err(Rejected::ExecutionExceedsDeadline);
        }
        let mut tasks = Vec::new();
        std::mem::swap(&mut tasks, &mut self.tasks);
        tasks.push(t);
        self.tasks = tasks;
        Ok(())
    }

    /// Total utilisation in parts per million.
    pub fn utilisation_ppm(&self) -> (u: Option<u64>)
        ensures
            u == level_utilisation(self@),
    {
        proof {
            use_type_invariant(self);
        }
        let n = self.tasks.len();
        let r = self.utilisation_through(if n == 0 { 0 } else { n - 1 });
        proof {
            assert(self@.take(self@.len() as int) =~= self@);
            if n == 0 {
                assert(self@.take(0) =~= self@);
            }
        }
        r
    }

    /// Utilisation through a priority level, inclusive, in parts per million:
    /// the sum of the floored per-task figures of tasks `0..=index`, or of
    /// the whole set when `index` lies past it.
    pub fn utilisation_through(&self, index: usize) -> (u: Option<u64>)
        ensures
            u == level_utilisation(
                self@.take(
                    if index as int + 1 < self@.len() {
                        index as int + 1
                    } else {
                        self@.len() as int
                    },
                ),
            ),
    {
        proof {
            use_type_invariant(self);
        }
        let depth = if index >= MAX_TASKS {
            MAX_TASKS
        } else {
            index + 1
        };
        let n = if depth < self.tasks.len() {
            depth
        } else {
            self.tasks.len()
        };
        let ghost level = self@.take(n as int);
        assert(n as int == (if index as int + 1 < self@.len() {
            index as int + 1
        } else {
            self@.len() as int
        }));
        let mut total: u64 = 0;
        let mut j: usize = 0;
        while j < n
            invariant
                valid_tasks(self@),
                n <= self@.len(),
                level == self@.take(n as int),
                n as int == (if index as int + 1 < self@.len() {
                    index as int + 1
                } else {
                    self@.len() as int
                }),
                j <= n,
                total == sum_of(self@.take(j as int), util_term()),
                forall|k: int| 0 <= k < j ==> (#[trigger] self@[k]).utilisation_spec() is Some,
            decreases n - j,
        {
            let t = &self.tasks[j];
            proof {
                lemma_sum_take_step(self@, j as int, util_term());
            }
            let u = match t.utilisation_ppm() {
                Some(u) => u,
                None => {
                    proof {
                        assert(level[j as int] == self@[j as int]);
                    }
                    return None;
                },
            };
            assert(u as int == util_term()(self@[j as int]));
            total = match total.checked_add(u) {
                Some(x) => x,
                None => {
                    proof {
                        self.lemma_util_terms_nonneg();
                        lemma_sum_prefix_mono(self@, j as int + 1, n as int, util_term());
                        assert(level.take(n as int) =~= level);
                        assert(self@.take(n as int) =~= level);
                    }
                    return None;
                },
            };
            j = j + 1;
        }
        proof {
            assert forall|k: int| 0 <= k < level.len() implies (#[trigger] level[k]).utilisation_spec() is Some by {
                assert(level[k] == self@[k]);
            }
        }
        Some(total)
    }

    proof fn lemma_util_terms_nonneg(&self)
        requires
            valid_tasks(self@),
        ensures
            forall|k: int| 0 <= k < self@.len() ==> util_term()(#[trigger] self@[k]) >= 0,
    {
        assert forall|k: int| 0 <= k < self@.len() implies util_term()(#[trigger] self@[k]) >= 0 by {
            let t = self@[k];
            vstd::arithmetic::div_mod::lemma_div_pos_is_pos(
                t.wcet_us * FULL_UTILISATION_PPM,
                t.period_us as int,
            );
        }
    }
}


impl TaskSet {
    /// One application of the recurrence over the first `count` tasks:
    /// `base + Σ ⌈(w + Jⱼ)/Tⱼ⌉ · Cⱼ`, refused when any step overflows.
    fn apply_recurrence(&self, count: usize, base: u64, w: u64) -> (r: Option<u64>)
        requires
            count <= self@.len(),
        ensures
            r matches Some(x) ==> recurrence(self@.take(count as int), base as int, w as int)
                == Some(x as int),
            r is None ==> recurrence(self@.take(count as int), base as int, w as int) is None,
    {
        proof {
            use_type_invariant(self);
            lemma_prefix_valid(self@, count as int);
            lemma_demand_nonneg(self@, w as int);
            assert(self@.take(count as int).take(count as int) =~= self@.take(count as int));
        }
        let ghost higher = self@.take(count as int);
        let mut next = base;
        let mut j: usize = 0;
        while j < count
            invariant
                valid_tasks(self@),
                count <= self@.len(),
                higher == self@.take(count as int),
                forall|k: int| 0 <= k < self@.len() ==> demand_term(w as int)(#[trigger] self@[k]) >= 0,
                j <= count,
                next == base + sum_of(self@.take(j as int), demand_term(w as int)),
                forall|k: int| 0 <= k < j ==> w + (#[trigger] self@[k]).jitter_us <= u64::MAX,
            decreases count - j,
        {
            let t = self.tasks[j];
            proof {
                lemma_sum_take_step(self@, j as int, demand_term(w as int));
                lemma_sum_bounds_term(self@, j as int, count as int, demand_term(w as int));
                lemma_sum_prefix_mono(self@, 0, j as int, demand_term(w as int));
                assert(higher[j as int] == self@[j as int]);
            }
            let window = match w.checked_add(t.jitter_us) {
                Some(x) => x,
                None => return None,
            };
            let jobs = ceil_div_u64(window, t.period_us);
            let demand = match jobs.checked_mul(t.wcet_us) {
                Some(x) => x,
                None => return None,
            };
            next = match next.checked_add(demand) {
                Some(x) => x,
                None => return None,
            };
            j = j + 1;
        }
        proof {
            assert forall|k: int| 0 <= k < higher.len() implies w + (#[trigger] higher[k]).jitter_us
                <= u64::MAX by {
                assert(higher[k] == self@[k]);
            }
        }
        Some(next)
    }

    /// The fixed-point search over the first `count` tasks from `seed`,
    /// within [`ITERATION_CAP`] applications of the recurrence.
    fn solve_recurrence(&self, count: usize, base: u64, seed: u64) -> (r: Result<
        u64,
        AnalysisFailure,
    >)
        requires
            count <= self@.len(),
        ensures
            r matches Ok(x) ==> solve(self@.take(count as int), base as int, seed as int, cap())
                == Ok::<int, AnalysisFailure>(x as int),
            r matches Err(e) ==> solve(self@.take(count as int), base as int, seed as int, cap())
                == Err::<int, AnalysisFailure>(e),
    {
        let ghost higher = self@.take(count as int);
        let mut w = seed;
        let mut k: u32 = 0;
        while k < ITERATION_CAP
            invariant
                count <= self@.len(),
                higher == self@.take(count as int),
                k <= ITERATION_CAP,
                solve(higher, base as int, w as int, (cap() - k) as nat) == solve(
                    higher,
                    base as int,
                    seed as int,
                    cap(),
                ),
            decreases ITERATION_CAP - k,
        {
            match self.apply_recurrence(count, base, w) {
                None => return Err(AnalysisFailure::Overflow),
                Some(next) => {
                    if next == w {
                        return Ok(w);
                    }
                    w = next;
                },
            }
            k = k + 1;
        }
        Err(AnalysisFailure::IterationLimit)
    }

    /// The length of the level-`index` busy period.
    fn busy_period_of(&self, index: usize) -> (r: Result<u64, AnalysisFailure>)
        requires
            index < self@.len(),
        ensures
            r matches Ok(x) ==> busy_period(self@.take(index as int), self@[index as int]) == Ok::<
                int,
                AnalysisFailure,
            >(x as int),
            r matches Err(e) ==> busy_period(self@.take(index as int), self@[index as int]) == Err::<
                int,
                AnalysisFailure,
            >(e),
    {
        proof {
            use_type_invariant(self);
        }
        let task = self.tasks[index];
        let mut busy = task.blocking_us;
        let mut j: usize = 0;
        while j < index + 1
            invariant
                valid_tasks(self@),
                index < self@.len(),
                task == self@[index as int],
                j <= index + 1,
                busy == task.blocking_us + sum_of(self@.take(j as int), wcet_term()),
            decreases index + 1 - j,
        {
            proof {
                lemma_sum_take_step(self@, j as int, wcet_term());
                lemma_sum_prefix_mono(self@, j as int + 1, index as int + 1, wcet_term());
            }
            busy = match busy.checked_add(self.tasks[j].wcet_us) {
                Some(x) => x,
                None => {
                    proof {
                        assert(self@.take(index as int + 1) =~= self@.take(index as int).push(task));
                    }
                    return Err(AnalysisFailure::Overflow);
                },
            };
            j = j + 1;
        }
        proof {
            assert(self@.take(index as int + 1) =~= self@.take(index as int).push(task));
        }
        self.solve_recurrence(index + 1, task.blocking_us, busy)
    }

    /// The response of job `q` of the task at `index`, from its own release.
    fn job_response_of(&self, index: usize, q: u64) -> (r: Result<u64, AnalysisFailure>)
        requires
            index < self@.len(),
            q < BUSY_PERIOD_CAP,
        ensures
            r matches Ok(x) ==> job_response(self@.take(index as int), self@[index as int], q as int)
                == Ok::<int, AnalysisFailure>(x as int),
            r matches Err(e) ==> job_response(
                self@.take(index as int),
                self@[index as int],
                q as int,
            ) == Err::<int, AnalysisFailure>(e),
    {
        let task = self.tasks[index];
        // (q+1)·C + B: every job released so far in this busy period, plus
        // the one blocking term the priority-ceiling protocol allows.
        let base = match (q + 1).checked_mul(task.wcet_us) {
            Some(x) => match x.checked_add(task.blocking_us) {
                Some(b) => b,
                None => return Err(AnalysisFailure::Overflow),
            },
            None => {
                proof {
                    vstd::arithmetic::mul::lemma_mul_nonnegative(q + 1, task.blocking_us as int);
                }
                return Err(AnalysisFailure::Overflow);
            },
        };
        let w = match self.solve_recurrence(index, base, base) {
            Ok(w) => w,
            Err(e) => return Err(e),
        };
        // R(q) = w(q) + J − q·T, the jitter grouped in before the shift is
        // taken out so that no intermediate goes negative.
        let shift = match q.checked_mul(task.period_us) {
            Some(x) => x,
            None => return Err(AnalysisFailure::Overflow),
        };
        match w.checked_add(task.jitter_us) {
            Some(x) => if x >= shift {
                Ok(x - shift)
            } else {
                Err(AnalysisFailure::Overflow)
            },
            None => Err(AnalysisFailure::Overflow),
        }
    }

    /// Whether the level of task `index` is disturbed: the task is blocked,
    /// or some task at or above it carries jitter on nonzero work.
    fn level_disturbed(&self, index: usize) -> (b: bool)
        requires
            index < self@.len(),
        ensures
            b == disturbed(self@.take(index as int), self@[index as int]),
    {
        proof {
            use_type_invariant(self);
        }
        let task = self.tasks[index];
        let ghost level = self@.take(index as int + 1);
        proof {
            assert(level =~= self@.take(index as int).push(task));
            assert forall|k: int| 0 <= k < level.len() implies jitter_term()(
                #[trigger] level[k],
            ) >= 0 by {}
        }
        if task.blocking_us > 0 {
            return true;
        }
        let mut k: usize = 0;
        while k <= index
            invariant
                index < self@.len(),
                self@.len() <= MAX_TASKS,
                k <= index + 1,
                level == self@.take(index as int + 1),
                level == self@.take(index as int).push(self@[index as int]),
                forall|j: int| 0 <= j < level.len() ==> jitter_term()(#[trigger] level[j]) >= 0,
                sum_of(level.take(k as int), jitter_term()) == 0,
            decreases index + 1 - k,
        {
            let t = self.tasks[k];
            proof {
                lemma_sum_take_step(level, k as int, jitter_term());
                assert(level[k as int] == t);
            }
            if t.jitter_us > 0 && t.wcet_us > 0 {
                proof {
                    lemma_sum_prefix_mono(level, k as int + 1, level.len() as int, jitter_term());
                    assert(level.take(level.len() as int) =~= level);
                }
                return true;
            }
            k = k + 1;
        }
        proof {
            assert(level.take(k as int) =~= level);
        }
        false
    }

    /// The worst-case response time of the task at `index`.
    ///
    /// Solves the jitter-extended recurrence over the level-i busy period
    /// (Lehoczky; Tindell, Burns and Wellings): the busy-period length first,
    /// then the response of every job inside it, refusing rather than
    /// wrapping, and reporting a bound past the deadline with its value.
    pub fn response_of(&self, index: usize) -> (r: Response)
        ensures
            r == response_spec(self@, index as int),
    {
        proof {
            use_type_invariant(self);
        }
        if index >= self.tasks.len() {
            return Response::Refused(AnalysisFailure::NoSuchTask);
        }
        let task = self.tasks[index];
        proof {
            assert(self@.take(index as int + 1) =~= self@.take(index as int).push(task));
        }
        match self.utilisation_through(index) {
            None => return Response::Refused(AnalysisFailure::Overflow),
            Some(u) => if u > FULL_UTILISATION_PPM {
                return Response::Refused(AnalysisFailure::NonConvergent);
            } else if u == FULL_UTILISATION_PPM && self.level_disturbed(index) {
                // Saturated and disturbed: no busy period ever closes.
                return Response::Refused(AnalysisFailure::NonConvergent);
            },
        }
        let busy = match self.busy_period_of(index) {
            Ok(b) => b,
            Err(e) => return Response::Refused(e),
        };
        let released = match busy.checked_add(task.jitter_us) {
            Some(x) => x,
            None => return Response::Refused(AnalysisFailure::Overflow),
        };
        let jobs = ceil_div_u64(released, task.period_us);
        let jobs_in_window = if jobs < 1 {
            1
        } else {
            jobs
        };
        if jobs_in_window > BUSY_PERIOD_CAP {
            return Response::Refused(AnalysisFailure::BusyPeriodLimit);
        }
        let mut worst: u64 = 0;
        let mut q: u64 = 0;
        while q < jobs_in_window
            invariant
                index < self@.len(),
                task == self@[index as int],
                level_utilisation(self@.take(index as int).push(task)) matches Some(u) && u
                    <= FULL_UTILISATION_PPM && !(u == FULL_UTILISATION_PPM && disturbed(
                    self@.take(index as int),
                    task,
                )),
                busy_period(self@.take(index as int), task) == Ok::<int, AnalysisFailure>(
                    busy as int,
                ),
                busy + task.jitter_us <= u64::MAX,
                jobs_in_window as int == jobs_in_busy_period(task, busy as int),
                jobs_in_window <= BUSY_PERIOD_CAP,
                q <= jobs_in_window,
                worst_response(self@.take(index as int), task, q as int) == Ok::<
                    int,
                    AnalysisFailure,
                >(worst as int),
            decreases jobs_in_window - q,
        {
            let r = match self.job_response_of(index, q) {
                Ok(r) => r,
                Err(e) => {
                    proof {
                        lemma_worst_response_err_persists(
                            self@.take(index as int),
                            task,
                            q as int + 1,
                            jobs_in_window as int,
                        );
                    }
                    return Response::Refused(e);
                },
            };
            if r > worst {
                worst = r;
            }
            q = q + 1;
        }
        if worst > task.deadline_us {
            Response::Refused(AnalysisFailure::ExceedsDeadline(worst))
        } else {
            Response::Bounded(worst)
        }
    }
}

impl TaskSet {
    /// Whether every task meets its deadline.
    pub fn is_schedulable(&self) -> (b: bool)
        ensures
            b == schedulable(self@),
    {
        let n = self.len();
        let mut i: usize = 0;
        while i < n
            invariant
                n == self@.len(),
                i <= n,
                forall|k: int| 0 <= k < i ==> (#[trigger] response_spec(self@, k)) is Bounded,
            decreases n - i,
        {
            if !self.response_of(i).is_bounded() {
                return false;
            }
            i = i + 1;
        }
        true
    }

    /// The index of the first task that misses, if any misses.
    pub fn first_failure(&self) -> (f: Option<usize>)
        ensures
            f matches Some(i) ==> i < self@.len() && !(response_spec(self@, i as int) is Bounded)
                && forall|k: int| 0 <= k < i ==> (#[trigger] response_spec(self@, k)) is Bounded,
            f is None ==> schedulable(self@),
    {
        let n = self.len();
        let mut i: usize = 0;
        while i < n
            invariant
                n == self@.len(),
                i <= n,
                forall|k: int| 0 <= k < i ==> (#[trigger] response_spec(self@, k)) is Bounded,
            decreases n - i,
        {
            if !self.response_of(i).is_bounded() {
                return Some(i);
            }
            i = i + 1;
        }
        None
    }

    /// Time between a task's response and its deadline, when it meets one.
    pub fn slack_of(&self, index: usize) -> (s: Option<u64>)
        ensures
            s == (match response_spec(self@, index as int) {
                Response::Bounded(r) => Some((self@[index as int].deadline_us - r) as u64),
                Response::Refused(_) => None,
            }),
    {
        let task = match self.get(index) {
            Some(t) => *t,
            None => return None,
        };
        let r = match self.response_of(index).bound() {
            Some(r) => r,
            None => return None,
        };
        proof {
            crate::laws::lemma_bounded_meets_deadline(self@, index as int);
        }
        Some(task.deadline_us - r)
    }

    /// A copy of this set with the execution time of task `index` set to `c`.
    fn with_wcet_at(&self, index: usize, c: u64) -> (s: TaskSet)
        requires
            index < self@.len(),
            c <= self@[index as int].deadline_us,
        ensures
            s@ == with_wcet(self@, index as int, c as int),
    {
        proof {
            use_type_invariant(self);
        }
        let mut tasks: Vec<Task> = Vec::new();
        let mut j: usize = 0;
        while j < self.tasks.len()
            invariant
                valid_tasks(self@),
                index < self@.len(),
                c <= self@[index as int].deadline_us,
                j <= self@.len(),
                tasks@ == with_wcet(self@, index as int, c as int).take(j as int),
            decreases self@.len() - j,
        {
            let t = self.tasks[j];
            if j == index {
                tasks.push(Task { wcet_us: c, ..t });
            } else {
                tasks.push(t);
            }
            j = j + 1;
            proof {
                assert(tasks@ =~= with_wcet(self@, index as int, c as int).take(j as int));
            }
        }
        proof {
            assert(with_wcet(self@, index as int, c as int).take(j as int) =~= with_wcet(
                self@,
                index as int,
                c as int,
            ));
            assert forall|k: int| 0 <= k < tasks@.len() implies admissible(#[trigger] tasks@[k]) by {
                if k != index {
                    assert(tasks@[k] == self@[k]);
                }
            }
        }
        TaskSet { tasks }
    }

    /// Whether task `index` could take `extra` longer with every deadline in
    /// the set still met.
    fn fits_with(&self, index: usize, task: Task, extra: u64) -> (b: bool)
        requires
            index < self@.len(),
            task == self@[index as int],
        ensures
            b == fits_with_extra(self@, index as int, extra as int),
    {
        match task.wcet_us.checked_add(extra) {
            Some(c) => {
                if c <= task.deadline_us {
                    self.with_wcet_at(index, c).is_schedulable()
                } else {
                    false
                }
            },
            None => false,
        }
    }

    /// How much execution time task `index` could gain with every task of the
    /// set still meeting its deadline: a value that fits, one more than which
    /// does not.
    ///
    /// `None` if the set does not currently hold together, or if the index
    /// addresses no task.
    pub fn max_wcet_increase(&self, index: usize) -> (m: Option<u64>)
        ensures
            m is None <==> (index >= self@.len() || !schedulable(self@)),
            m matches Some(x) ==> fits_with_extra(self@, index as int, x as int)
                && !fits_with_extra(self@, index as int, x + 1),
    {
        proof {
            use_type_invariant(self);
        }
        let task = match self.get(index) {
            Some(t) => *t,
            None => return None,
        };
        if !self.is_schedulable() {
            return None;
        }
        proof {
            assert(with_wcet(self@, index as int, task.wcet_us as int) =~= self@);
        }
        // The deadline is a hard ceiling on any single execution time, so the
        // search space is bounded without probing for it.
        let mut lo: u64 = 0;
        let mut hi: u64 = task.deadline_us - task.wcet_us;
        while lo < hi
            invariant
                index < self@.len(),
                task == self@[index as int],
                lo <= hi <= task.deadline_us - task.wcet_us,
                fits_with_extra(self@, index as int, lo as int),
                hi < task.deadline_us - task.wcet_us ==> !fits_with_extra(
                    self@,
                    index as int,
                    hi + 1,
                ),
            decreases hi - lo,
        {
            let mid = lo + ceil_div_u64(hi - lo, 2);
            proof {
                lemma_ceil_div_basics((hi - lo) as int, (hi - lo) as int, 2);
                assert(ceil_div((hi - lo) as int, 2) <= hi - lo);
            }
            if self.fits_with(index, task, mid) {
                lo = mid;
            } else {
                hi = mid - 1;
            }
        }
        Some(lo)
    }

    /// The most task `index`'s execution time can grow with every task still
    /// proved to meet its deadline: the figure of
    /// [`TaskSet::max_wcet_increase`], under the name it is documented by.
    pub fn max_provable_wcet_increase(&self, index: usize) -> (m: Option<u64>)
        ensures
            m is None <==> (index >= self@.len() || !schedulable(self@)),
            m matches Some(x) ==> fits_with_extra(self@, index as int, x as int)
                && !fits_with_extra(self@, index as int, x + 1),
    {
        self.max_wcet_increase(index)
    }

    /// The Liu and Layland sufficient bound for rate-monotonic priorities,
    /// in parts per million: `n · (2^(1/n) − 1)`, floored, from a table.
    pub fn liu_layland_bound_ppm(n: usize) -> (b: u64)
        ensures
            b == liu_layland_table(n as int),
    {
        match n {
            0 | 1 => 1_000_000,
            2 => 828_427,
            3 => 779_763,
            4 => 756_828,
            5 => 743_491,
            6 => 734_772,
            7 => 728_626,
            8 => 724_061,
            9 => 720_537,
            10 => 717_734,
            11 => 715_451,
            12 => 713_557,
            13 => 711_958,
            14 => 710_592,
            15 => 709_411,
            16 => 708_380,
            _ => 693_147,
        }
    }

    /// Whether the set passes the Liu and Layland pre-check: its premises
    /// hold (implicit deadlines, no blocking or jitter, rate-monotonic
    /// order) and total utilisation is within the bound.
    pub fn passes_utilisation_bound(&self) -> (b: bool)
        ensures
            b == passes_liu_layland(self@),
            b ==> forall|k: int|
                0 <= k < self@.len() ==> (#[trigger] self@[k]).deadline_us == self@[k].period_us
                    && self@[k].blocking_us == 0 && self@[k].jitter_us == 0,
            b ==> forall|k: int|
                0 < k < self@.len() ==> self@[k - 1].period_us <= (#[trigger] self@[k]).period_us,
            b ==> (level_utilisation(self@) matches Some(u) && u <= liu_layland_table(
                self@.len() as int,
            )),
            b <==> ((forall|k: int|
                0 <= k < self@.len() ==> (#[trigger] self@[k]).deadline_us == self@[k].period_us
                    && self@[k].blocking_us == 0 && self@[k].jitter_us == 0) && (forall|k: int|
                0 < k < self@.len() ==> self@[k - 1].period_us <= (#[trigger] self@[k]).period_us)
                && level_utilisation(self@) is Some
                && crate::exact::exact_num(self@) <= liu_layland_table(self@.len() as int)
                * crate::exact::exact_den(self@)),
    {
        let b = self.liu_layland_check();
        proof {
            use_type_invariant(self);
            crate::laws::lemma_precheck_holds_only_within_its_theorem(self@);
        }
        b
    }

    /// The pre-check itself: premises first, then the floored sum, then the
    /// exact one.
    fn liu_layland_check(&self) -> (b: bool)
        ensures
            b == passes_liu_layland(self@),
    {
        let n = self.len();
        let mut previous: Option<u64> = None;
        let mut i: usize = 0;
        while i < n
            invariant
                n == self@.len(),
                i <= n,
                forall|k: int|
                    0 <= k < i ==> (#[trigger] self@[k]).deadline_us == self@[k].period_us
                        && self@[k].blocking_us == 0 && self@[k].jitter_us == 0,
                forall|k: int| 0 < k < i ==> self@[k - 1].period_us <= (#[trigger] self@[k]).period_us,
                i == 0 ==> previous is None,
                i > 0 ==> previous == Some(self@[i - 1].period_us),
            decreases n - i,
        {
            let t = self.tasks[i];
            if t.deadline_us != t.period_us {
                return false;
            }
            if t.blocking_us != 0 || t.jitter_us != 0 {
                return false;
            }
            if let Some(p) = previous {
                if t.period_us < p {
                    return false;
                }
            }
            previous = Some(t.period_us);
            i = i + 1;
        }
        let u = match self.utilisation_ppm() {
            Some(u) => u,
            None => return false,
        };
        let bound = Self::liu_layland_bound_ppm(n);
        let ghost ts = self@;
        proof {
            assert(liu_layland_premises(ts));
            use_type_invariant(self);
            assert(periods_positive(ts)) by {
                assert forall|j: int| 0 <= j < ts.len() implies (#[trigger] ts[j]).period_us > 0 by {
                    assert(admissible(ts[j]));
                }
            }
            assert forall|j: int| 0 <= j < ts.len() implies util_term()(#[trigger] ts[j]) >= 0 by {
                assert(ts[j].period_us > 0);
                vstd::arithmetic::div_mod::lemma_div_pos_is_pos(
                    ts[j].wcet_us * FULL_UTILISATION_PPM,
                    ts[j].period_us as int,
                );
            }
            lemma_sum_prefix_mono(ts, 0, ts.len() as int, util_term());
            assert(ts.take(ts.len() as int) =~= ts);
            assert(u as int == sum_of(ts, util_term()));
            lemma_exact_split(ts);
            lemma_exact_compare(ts, bound as int);
        }
        if u > bound {
            proof {
                let rd = rem_den(ts);
                assert((bound - u) * rd < 0) by (nonlinear_arith)
                    requires
                        bound < u,
                        rd > 0,
                ;
            }
            return false;
        }
        // How many tasks the floor rounds down: each drops less than one part
        // per million.
        let mut rounded: u64 = 0;
        let mut i: usize = 0;
        while i < n
            invariant
                n == ts.len(),
                ts == self@,
                n <= MAX_TASKS,
                periods_positive(ts),
                liu_layland_premises(ts),
                i <= n,
                rounded as int == sum_of(ts.take(i as int), rounded_term()),
                rounded <= i,
            decreases n - i,
        {
            let t = self.tasks[i];
            let r = (t.wcet_us as u128 * 1_000_000) % (t.period_us as u128);
            proof {
                lemma_sum_take_step(ts, i as int, rounded_term());
                assert(t == ts[i as int]);
                assert(r == remainder(t));
            }
            if r != 0 {
                rounded = rounded + 1;
            }
            i = i + 1;
        }
        proof {
            assert(ts.take(n as int) =~= ts);
        }
        if u + rounded <= bound {
            proof {
                let rd = rem_den(ts);
                let k = sum_of(ts, rounded_term());
                assert(k * rd <= (bound - u) * rd) by (nonlinear_arith)
                    requires
                        k <= bound - u,
                        rd > 0,
                ;
            }
            return true;
        }
        // The floored sum cannot settle it: compare the dropped remainders
        // exactly, against what is left of the bound, in numbers as wide as
        // the product of the periods needs.
        let room: u64 = bound - u;
        let mut num: Vec<u64> = wide_from(0);
        let mut den: Vec<u64> = wide_from(1);
        let mut j: usize = 0;
        while j < n
            invariant
                n == ts.len(),
                ts == self@,
                n <= MAX_TASKS,
                periods_positive(ts),
                liu_layland_premises(ts),
                level_utilisation(ts) == Some(u),
                u + sum_of(ts, rounded_term()) > bound,
                exactly_within(ts, bound as int) <==> rem_num(ts) <= (bound - u) * rem_den(ts),
                bound == liu_layland_table(n as int),
                room == bound - u,
                j <= n,
                limbs_ok(num@),
                limbs_ok(den@),
                wide_value(num@) == rem_num(ts.take(j as int)),
                wide_value(den@) == rem_den(ts.take(j as int)),
            decreases n - j,
        {
            let t = self.tasks[j];
            let wide_r = (t.wcet_us as u128 * 1_000_000) % (t.period_us as u128);
            let ghost prev = ts.take(j as int);
            let ghost next = ts.take(j as int + 1);
            proof {
                assert(t == ts[j as int]);
                assert(wide_r == remainder(t));
                assert(next.drop_last() =~= prev);
                assert(next.last() == t);
                assert(t.period_us > 0);
            }
            let r = wide_r as u64;
            if r != 0 {
                let grown = wide_mul_word(&num, t.period_us);
                let share = wide_mul_word(&den, r);
                num = wide_add(&grown, &share);
                den = wide_mul_word(&den, t.period_us);
            }
            j = j + 1;
        }
        proof {
            assert(ts.take(n as int) =~= ts);
        }
        let limit = wide_mul_word(&den, room);
        let le = wide_le(&num, &limit);
        proof {
            assert(wide_value(den@) * room == (bound - u) * rem_den(ts)) by (nonlinear_arith)
                requires
                    wide_value(den@) == rem_den(ts),
                    room == bound - u,
            ;
            assert(le == (rem_num(ts) <= (bound - u) * rem_den(ts)));
            assert(le == exactly_within(ts, bound as int));
        }
        le
    }
}

impl TaskSet {
    /// Audsley's optimal priority assignment.
    ///
    /// The lowest priority is filled first: at each level the first
    /// unassigned task, by index, that meets its deadline with every other
    /// unassigned task above it is fixed there. `Found` carries the set's
    /// indices in priority order, highest first, in the first `len()` slots.
    /// A level with no such task ends the search: `NoOrdering` when every
    /// candidate there was shown to miss, `Inconclusive` with the first
    /// refusal by a limit of the analysis when one was only declined. The
    /// ordering is returned and not applied.
    pub fn optimal_priority_order(&self) -> (r: PriorityAssignment)
        ensures
            r is Found <==> priority_order(self@) is Some,
            r matches PriorityAssignment::Found(order) ==> priority_order(self@) == Some(
                order@.take(self@.len() as int).map_values(|x: usize| x as int),
            ) && forall|k: int| self@.len() <= k < MAX_TASKS ==> order@[k] == 0,
            r is NoOrdering <==> (priority_order(self@) is None && priority_limit(self@) is None),
            r matches PriorityAssignment::Inconclusive(f) ==> priority_order(self@) is None
                && priority_limit(self@) == Some(f),
            r matches PriorityAssignment::Inconclusive(f) ==> !(f is ExceedsDeadline) && !(
            f is NonConvergent),
            r is NoOrdering ==> exists|t2: Seq<bool>|
                crate::assignment::stopped_at(self@, t2, None),
            r matches PriorityAssignment::Inconclusive(f) ==> exists|t2: Seq<bool>|
                crate::assignment::stopped_at(self@, t2, Some(f)),
    {
        let r = self.audsley_search();
        proof {
            crate::laws::lemma_an_undecided_search_names_a_limit(self@);
            crate::laws::lemma_a_failed_search_stopped_at_a_level(self@);
        }
        r
    }

    /// The search itself, level by level from the lowest.
    fn audsley_search(&self) -> (r: PriorityAssignment)
        ensures
            r is Found <==> priority_order(self@) is Some,
            r matches PriorityAssignment::Found(order) ==> priority_order(self@) == Some(
                order@.take(self@.len() as int).map_values(|x: usize| x as int),
            ) && forall|k: int| self@.len() <= k < MAX_TASKS ==> order@[k] == 0,
            r is NoOrdering <==> (priority_order(self@) is None && priority_limit(self@) is None),
            r matches PriorityAssignment::Inconclusive(f) ==> priority_order(self@) is None
                && priority_limit(self@) == Some(f),
    {
        proof {
            use_type_invariant(self);
        }
        let n = self.tasks.len();
        let mut assigned: Vec<bool> = Vec::new();
        let mut j: usize = 0;
        while j < n
            invariant
                n == self@.len(),
                j <= n,
                assigned@ == Seq::new(j as nat, |i: int| false),
            decreases n - j,
        {
            assigned.push(false);
            j = j + 1;
            proof {
                assert(assigned@ =~= Seq::new(j as nat, |i: int| false));
            }
        }
        let ghost initial = assigned@;
        let mut order: [usize; MAX_TASKS] = [0; MAX_TASKS];
        let mut remaining: usize = n;
        while remaining > 0
            invariant
                valid_tasks(self@),
                n == self@.len(),
                n <= MAX_TASKS,
                initial == Seq::new(n as nat, |i: int| false),
                remaining <= n,
                assigned@.len() == n,
                forall|k: int| 0 <= k < remaining ==> order@[k] == 0,
                forall|k: int| n <= k < MAX_TASKS ==> order@[k] == 0,
                forall|k: int| remaining <= k < n ==> order@[k] < n,
                priority_limit(self@) == audsley_limit(self@, assigned@, remaining as nat),
                priority_order(self@) == (match audsley(self@, assigned@, remaining as nat) {
                    None => None,
                    Some(upper) => Some(
                        upper + order@.subrange(remaining as int, n as int).map_values(
                            |x: usize| x as int,
                        ),
                    ),
                }),
            decreases remaining,
        {
            let level = remaining - 1;
            let mut candidate: usize = 0;
            let mut limit: Option<AnalysisFailure> = None;
            while candidate < n
                invariant
                    valid_tasks(self@),
                    n == self@.len(),
                    n <= MAX_TASKS,
                    assigned@.len() == n,
                    candidate <= n,
                    first_fit(self@, assigned@, 0) == first_fit(self@, assigned@, candidate as int),
                    first_limit(self@, assigned@, 0) == (match limit {
                        Some(f) => Some(f),
                        None => first_limit(self@, assigned@, candidate as int),
                    }),
                ensures
                    candidate <= n,
                    first_fit(self@, assigned@, 0) == first_fit(self@, assigned@, candidate as int),
                    first_limit(self@, assigned@, 0) == (match limit {
                        Some(f) => Some(f),
                        None => first_limit(self@, assigned@, candidate as int),
                    }),
                    candidate < n ==> !assigned@[candidate as int] && fits_at_bottom(
                        self@,
                        assigned@,
                        candidate as int,
                    ),
                decreases n - candidate,
            {
                if assigned[candidate] {
                    proof {
                        lemma_first_fit_skip(self@, assigned@, candidate as int);
                    }
                    candidate = candidate + 1;
                    continue;
                }
                // Everything unassigned other than the candidate sits above it.
                let mut trial = TaskSet::new();
                let mut other: usize = 0;
                while other < n
                    invariant
                        valid_tasks(self@),
                        n == self@.len(),
                        n <= MAX_TASKS,
                        assigned@.len() == n,
                        candidate < n,
                        other <= n,
                        trial@ == others_above(self@, assigned@, candidate as int, other as int),
                    decreases n - other,
                {
                    if other != candidate && !assigned[other] {
                        proof {
                            lemma_others_above_len(
                                self@,
                                assigned@,
                                candidate as int,
                                other as int,
                            );
                        }
                        if trial.push(self.tasks[other]).is_err() {
                            return PriorityAssignment::NoOrdering;
                        }
                    }
                    other = other + 1;
                }
                proof {
                    lemma_others_above_len(self@, assigned@, candidate as int, n as int);
                }
                if trial.push(self.tasks[candidate]).is_err() {
                    return PriorityAssignment::NoOrdering;
                }
                let last = trial.len() - 1;
                let answer = trial.response_of(last);
                if answer.is_bounded() {
                    break;
                }
                proof {
                    lemma_first_fit_skip(self@, assigned@, candidate as int);
                }
                if limit.is_none() {
                    if let Response::Refused(f) = answer {
                        if !f.is_determinate() {
                            limit = Some(f);
                        }
                    }
                }
                candidate = candidate + 1;
            }
            if candidate >= n {
                return match limit {
                    Some(f) => PriorityAssignment::Inconclusive(f),
                    None => PriorityAssignment::NoOrdering,
                };
            }
            let ghost before = assigned@;
            assigned.set(candidate, true);
            order[level] = candidate;
            remaining = level;
            proof {
                assert(first_fit(self@, before, 0) == Some(candidate as int));
                assert(assigned@ == before.update(candidate as int, true));
                let suffix = order@.subrange(remaining as int, n as int).map_values(
                    |x: usize| x as int,
                );
                let old_suffix = order@.subrange(remaining as int + 1, n as int).map_values(
                    |x: usize| x as int,
                );
                assert(suffix =~= seq![candidate as int] + old_suffix);
                match audsley(self@, assigned@, remaining as nat) {
                    None => {},
                    Some(upper) => {
                        assert(upper.push(candidate as int) + old_suffix =~= upper + suffix);
                    },
                }
            }
        }
        proof {
            assert(order@.subrange(0, n as int) =~= order@.take(n as int));
        }
        PriorityAssignment::Found(order)
    }
}

/// `⌈a / b⌉` without the overflow of `(a + b - 1) / b`.
fn ceil_div_u64(a: u64, b: u64) -> (r: u64)
    requires
        b > 0,
    ensures
        r == ceil_div(a as int, b as int),
{
    let q = a / b;
    if a % b != 0 {
        proof {
            vstd::arithmetic::div_mod::lemma_div_is_ordered_by_denominator(a as int, 2, b as int);
        }
        q + 1
    } else {
        q
    }
}

} // verus!
