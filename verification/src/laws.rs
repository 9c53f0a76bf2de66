//! Properties of the analysis that hold across inputs and across calls.
use vstd::prelude::*;

use crate::model::{
    analyse, busy_period, cap, job_base, job_response, jobs_in_busy_period, lemma_ceil_div_basics,
    lemma_job_refusals, lemma_prefix_valid, lemma_solve_least, lemma_solve_settles_on_fixed_point,
    lemma_worst_response_bounds, recurrence, releases, response_spec, solve, sum_of, valid_tasks,
    wcet_term, worst_response,
};
use crate::assignment::{
    answers_without_limits, lemma_audsley_succeeds, lemma_full_selection_covers, selection,
    free_above, lemma_audsley_facts, lemma_free_above_facts, lemma_no_dup_same_elements,
    lemma_others_above_picks, lemma_pick_same_profiles, marked, pick,
};
use crate::model::{admissible, with_wcet, fits_with_extra, level_utilisation, liu_layland_table, audsley, fits_at_bottom, others_above, priority_order, schedulable, trial_set};
use crate::response::{AnalysisFailure, Response};
use crate::monotone::{interference_dominated, lemma_response_monotone, task_dominated};
use crate::symmetry::{lemma_analyse_same_profiles, profiles, same_profiles};
use crate::task::Task;

verus! {

/// A bounded answer never exceeds its task's deadline, and a deadline miss
/// is reported with a response time strictly past it.
pub proof fn lemma_bounded_meets_deadline(ts: Seq<Task>, i: int)
    ensures
        response_spec(ts, i) matches Response::Bounded(r) ==> 0 <= i < ts.len() && r
            <= ts[i].deadline_us,
        response_spec(ts, i) matches Response::Refused(AnalysisFailure::ExceedsDeadline(r))
            ==> 0 <= i < ts.len() && r > ts[i].deadline_us,
{
    if 0 <= i < ts.len() {
        let t = ts[i];
        let higher = ts.take(i);
        let busy = busy_period(higher, t)->Ok_0;
        let n = jobs_in_busy_period(t, busy);
        lemma_job_refusals(higher, t, n);
        if worst_response(higher, t, n) is Ok {
            lemma_worst_response_bounds(higher, t, n);
        }
    }
}

/// How the answer for task `t` below `higher` was reached when it carries a
/// response time: the busy period, its job count, and the worst job.
proof fn lemma_answer_anatomy(higher: Seq<Task>, t: Task)
    requires
        analyse(higher, t) matches Response::Bounded(_) || analyse(higher, t) matches Response::Refused(
            AnalysisFailure::ExceedsDeadline(_),
        ),
    ensures
        busy_period(higher, t) is Ok,
        1 <= jobs_in_busy_period(t, busy_period(higher, t)->Ok_0),
        worst_response(higher, t, jobs_in_busy_period(t, busy_period(higher, t)->Ok_0)) is Ok,
        analyse(higher, t) matches Response::Bounded(r) ==> r == worst_response(
            higher,
            t,
            jobs_in_busy_period(t, busy_period(higher, t)->Ok_0),
        )->Ok_0,
        analyse(higher, t) matches Response::Refused(AnalysisFailure::ExceedsDeadline(r)) ==> r
            == worst_response(higher, t, jobs_in_busy_period(t, busy_period(higher, t)->Ok_0))->Ok_0,
{
    let busy = busy_period(higher, t)->Ok_0;
    let n = jobs_in_busy_period(t, busy);
    lemma_job_refusals(higher, t, n);
    lemma_worst_response_bounds(higher, t, n);
}

/// A response is never shorter than the work of the job itself: whenever the
/// analysis reports a response time, bounded or past the deadline, it is at
/// least `C + B + J`.
pub proof fn lemma_response_covers_own_work(ts: Seq<Task>, i: int)
    requires
        valid_tasks(ts),
    ensures
        response_spec(ts, i).response_time_spec() matches Some(r) ==> r >= ts[i].wcet_us
            + ts[i].blocking_us + ts[i].jitter_us,
{
    if response_spec(ts, i).response_time_spec() is Some {
        let higher = ts.take(i);
        let t = ts[i];
        lemma_answer_anatomy(higher, t);
        let n = jobs_in_busy_period(t, busy_period(higher, t)->Ok_0);
        lemma_worst_response_bounds(higher, t, n);
        lemma_prefix_valid(ts, i);
        let base = job_base(t, 0);
        lemma_solve_settles_on_fixed_point(higher, base, base, cap());
    }
}

/// A task with nothing above it pays only for itself: at index 0 every
/// reported response time is exactly `C + B + J`.
pub proof fn lemma_lone_task_pays_only_for_itself(ts: Seq<Task>)
    requires
        valid_tasks(ts),
        ts.len() >= 1,
    ensures
        response_spec(ts, 0).response_time_spec() matches Some(r) ==> r == ts[0].wcet_us
            + ts[0].blocking_us + ts[0].jitter_us,
{
    if response_spec(ts, 0).response_time_spec() is Some {
        let higher = ts.take(0);
        let t = ts[0];
        assert(higher =~= Seq::<Task>::empty());
        lemma_answer_anatomy(higher, t);
        let busy = busy_period(higher, t)->Ok_0;
        let n = jobs_in_busy_period(t, busy);
        lemma_worst_response_bounds(higher, t, n);
        let level = higher.push(t);
        assert(level =~= seq![t]);
        crate::model::lemma_sum_single(t, wcet_term());
        crate::model::lemma_sum_single(t, crate::model::demand_term(busy));
        let seed = t.blocking_us + sum_of(level, wcet_term());
        lemma_solve_settles_on_fixed_point(level, t.blocking_us as int, seed, cap());
        let k = releases(t, busy);
        lemma_ceil_div_basics(busy + t.jitter_us, busy + t.jitter_us, t.period_us as int);
        // busy = B + k·C and k·T ≥ busy + J, so a second job exists only when
        // C ≤ T, and then every later job responds no later than the first.
        assert(busy == t.blocking_us + k * t.wcet_us);
        if n >= 2 {
            assert(k >= 2);
            assert(k * t.wcet_us <= k * t.period_us);
            assert(t.wcet_us * k <= t.period_us * k) by (nonlinear_arith)
                requires
                    k * t.wcet_us <= k * t.period_us,
            ;
            vstd::arithmetic::mul::lemma_mul_inequality_converse(
                t.wcet_us as int,
                t.period_us as int,
                k,
            );
        }
        assert forall|q: int| 0 <= q < n implies (#[trigger] job_response(higher, t, q))->Ok_0
            <= t.wcet_us + t.blocking_us + t.jitter_us by {
            let base = job_base(t, q);
            assert(recurrence(higher, base, base) == Some(base));
            assert(solve(higher, base, base, cap()) == Ok::<int, AnalysisFailure>(base));
            if q > 0 {
                assert(t.wcet_us <= t.period_us);
                vstd::arithmetic::mul::lemma_mul_inequality(
                    t.wcet_us as int,
                    t.period_us as int,
                    q,
                );
                vstd::arithmetic::mul::lemma_mul_is_distributive_add_other_way(
                    t.wcet_us as int,
                    q,
                    1,
                );
            }
        }
        let base0 = job_base(t, 0);
        assert(recurrence(higher, base0, base0) == Some(base0));
        assert(solve(higher, base0, base0, cap()) == Ok::<int, AnalysisFailure>(base0));
        assert(job_response(higher, t, 0) == Ok::<int, AnalysisFailure>(
            t.wcet_us + t.blocking_us + t.jitter_us,
        ));
        let worst = worst_response(higher, t, n)->Ok_0;
        let q = choose|q: int|
            0 <= q < n && (#[trigger] job_response(higher, t, q)) == Ok::<int, AnalysisFailure>(
                worst,
            );
        assert(job_response(higher, t, q)->Ok_0 <= t.wcet_us + t.blocking_us + t.jitter_us);
        assert(worst == t.wcet_us + t.blocking_us + t.jitter_us);
    }
}

/// The window found for each job is the least solution of its recurrence:
/// it satisfies `w = (q+1)·C + B + Σ ⌈(w + Jⱼ)/Tⱼ⌉ · Cⱼ` over the tasks
/// above, and no smaller value at or above `(q+1)·C + B` does.
pub proof fn lemma_job_window_is_least_solution(ts: Seq<Task>, i: int, q: int, y: int)
    requires
        valid_tasks(ts),
        0 <= i < ts.len(),
        0 <= q,
        job_base(ts[i], q) <= u64::MAX,
        solve(ts.take(i), job_base(ts[i], q), job_base(ts[i], q), cap()) is Ok,
    ensures
        ({
            let w = solve(ts.take(i), job_base(ts[i], q), job_base(ts[i], q), cap())->Ok_0;
            &&& recurrence(ts.take(i), job_base(ts[i], q), w) == Some(w)
            &&& (job_base(ts[i], q) <= y && recurrence(ts.take(i), job_base(ts[i], q), y) == Some(y))
                ==> w <= y
        }),
{
    let base = job_base(ts[i], q);
    lemma_prefix_valid(ts, i);
    vstd::arithmetic::mul::lemma_mul_nonnegative(q + 1, ts[i].wcet_us as int);
    lemma_solve_settles_on_fixed_point(ts.take(i), base, base, cap());
    if base <= y && recurrence(ts.take(i), base, y) == Some(y) {
        lemma_solve_least(ts.take(i), base, base, cap(), y);
    }
}

/// The busy period found is the least solution of its recurrence at or above
/// the work released at its start: it satisfies
/// `L = B + Σ ⌈(L + Jⱼ)/Tⱼ⌉ · Cⱼ` over this level and above, and no smaller
/// value at or above `B + Σ Cⱼ` does.
pub proof fn lemma_busy_period_is_least_solution(ts: Seq<Task>, i: int, y: int)
    requires
        valid_tasks(ts),
        0 <= i < ts.len(),
        busy_period(ts.take(i), ts[i]) is Ok,
    ensures
        ({
            let level = ts.take(i).push(ts[i]);
            let b = ts[i].blocking_us as int;
            let l = busy_period(ts.take(i), ts[i])->Ok_0;
            &&& recurrence(level, b, l) == Some(l)
            &&& (b + sum_of(level, wcet_term()) <= y && recurrence(level, b, y) == Some(y)) ==> l
                <= y
        }),
{
    let level = ts.take(i).push(ts[i]);
    assert(level =~= ts.take(i + 1));
    lemma_prefix_valid(ts, i + 1);
    let b = ts[i].blocking_us as int;
    let seed = b + sum_of(level, wcet_term());
    crate::model::lemma_wcet_sum_nonneg(level);
    lemma_solve_settles_on_fixed_point(level, b, seed, cap());
    if seed <= y && recurrence(level, b, y) == Some(y) {
        lemma_solve_least(level, b, seed, cap(), y);
    }
}

/// Audsley's order names every task of the set exactly once: it is a
/// permutation of `0..n`.
pub proof fn lemma_priority_order_is_a_permutation(ts: Seq<Task>)
    requires
        priority_order(ts) is Some,
    ensures
        ({
            let o = priority_order(ts)->Some_0;
            &&& o.len() == ts.len()
            &&& o.no_duplicates()
            &&& forall|m: int| 0 <= m < o.len() ==> 0 <= #[trigger] o[m] < ts.len()
            &&& forall|j: int| 0 <= j < ts.len() ==> #[trigger] o.contains(j)
        }),
{
    let n = ts.len();
    let none_taken = Seq::new(n, |j: int| false);
    lemma_audsley_facts(ts, none_taken, n);
    let o = priority_order(ts)->Some_0;
    let range = vstd::set_lib::set_int_range(0, n as int);
    vstd::set_lib::lemma_int_range(0, n as int);
    o.unique_seq_to_set();
    assert(o.to_set().subset_of(range)) by {
        assert forall|x: int| o.to_set().contains(x) implies range.contains(x) by {
            let m = choose|m: int| 0 <= m < o.len() && o[m] == x;
        }
    }
    vstd::set_lib::lemma_len_subset(o.to_set(), range);
    vstd::set_lib::lemma_subset_equality(o.to_set(), range);
    assert forall|j: int| 0 <= j < n implies #[trigger] o.contains(j) by {
        assert(range.contains(j));
        assert(o.to_set().contains(j));
    }
}

/// Audsley's order holds when applied: the set reordered by it meets every
/// deadline. Each task was accepted at its level against exactly the tasks
/// that sit above it in the reordered set, and the answer for a task does
/// not depend on the order of the tasks above it.
pub proof fn lemma_priority_order_holds_when_applied(ts: Seq<Task>)
    requires
        priority_order(ts) is Some,
    ensures
        schedulable(pick(ts, priority_order(ts)->Some_0)),
{
    let n = ts.len();
    let none_taken = Seq::new(n, |j: int| false);
    lemma_audsley_facts(ts, none_taken, n);
    lemma_priority_order_is_a_permutation(ts);
    let o = priority_order(ts)->Some_0;
    let applied = pick(ts, o);
    assert forall|m: int| 0 <= m < applied.len() implies (#[trigger] response_spec(applied, m))
        is Bounded by {
        let c = o[m];
        let below = o.subrange(m + 1, n as int);
        let taken_m = marked(none_taken, below);
        assert(fits_at_bottom(ts, taken_m, c));
        let others = others_above(ts, taken_m, c, n as int);
        let trial = trial_set(ts, taken_m, c);
        assert(trial.take(trial.len() - 1) =~= others);
        assert(response_spec(trial, trial.len() - 1) == analyse(others, ts[c]));
        lemma_others_above_picks(ts, taken_m, c, n as int);
        let free = free_above(taken_m, c, n as int);
        lemma_free_above_facts(taken_m, c, n as int);
        let above = o.take(m);
        assert(applied.take(m) =~= pick(ts, above));
        assert forall|x: int| above.contains(x) <==> free.contains(x) by {
            if above.contains(x) {
                let i = choose|i: int| 0 <= i < above.len() && above[i] == x;
                assert(o[i] == x);
                assert(x != c);
                if below.contains(x) {
                    let i2 = choose|i2: int| 0 <= i2 < below.len() && below[i2] == x;
                    assert(o[m + 1 + i2] == x);
                }
                assert(!taken_m[x]);
            }
            if free.contains(x) {
                assert(o.contains(x));
                let i = choose|i: int| 0 <= i < o.len() && o[i] == x;
                if i > m {
                    assert(below[i - m - 1] == x);
                }
                assert(i < m);
                assert(above[i] == x);
            }
        }
        assert(above.no_duplicates());
        lemma_no_dup_same_elements(above, free);
        assert forall|k: int| 0 <= k < free.len() implies 0 <= #[trigger] free[k] < ts.len() by {
            assert(free.contains(free[k]));
        }
        lemma_pick_same_profiles(ts, above, free);
        lemma_analyse_same_profiles(pick(ts, above), pick(ts, free), c_task(ts, c));
        assert(applied[m] == ts[c]);
    }
}

spec fn c_task(ts: Seq<Task>, c: int) -> Task {
    ts[c]
}

/// `ts` with the task at `k` replaced by `t`, read below position `i`:
/// the tasks above `i`, and the task at `i`, as the analysis sees them.
proof fn lemma_replace_views(ts: Seq<Task>, k: int, t: Task, i: int)
    requires
        0 <= k <= i < ts.len(),
    ensures
        k < i ==> ts.update(k, t).take(i) == ts.take(i).update(k, t) && ts.update(k, t)[i]
            == ts[i],
        k == i ==> ts.update(k, t).take(i) == ts.take(i) && ts.update(k, t)[i] == t,
{
    if k < i {
        assert(ts.update(k, t).take(i) =~= ts.take(i).update(k, t));
    } else {
        assert(ts.update(k, t).take(i) =~= ts.take(i));
    }
}

/// Replacing a task at or above `i` by one that asks at least as much of the
/// processor never shortens the response time of task `i`.
proof fn lemma_heavier_task_never_shortens(ts: Seq<Task>, k: int, t: Task, i: int)
    requires
        valid_tasks(ts),
        0 <= k <= i < ts.len(),
        task_dominated(ts[k], t),
        response_spec(ts, i).response_time_spec() is Some,
        response_spec(ts.update(k, t), i).response_time_spec() is Some,
    ensures
        response_spec(ts, i).response_time_spec()->Some_0 <= response_spec(
            ts.update(k, t),
            i,
        ).response_time_spec()->Some_0,
{
    lemma_replace_views(ts, k, t, i);
    let h1 = ts.take(i);
    let h2 = ts.update(k, t).take(i);
    lemma_prefix_valid(ts, i);
    assert forall|j: int| 0 <= j < h2.len() implies (#[trigger] h2[j]).period_us > 0 by {
        if j != k {
            assert(h2[j] == h1[j]);
        }
    }
    assert(interference_dominated(h1, h2)) by {
        assert forall|j: int| 0 <= j < h1.len() implies (#[trigger] h1[j]).period_us
            == h2[j].period_us && h1[j].wcet_us <= h2[j].wcet_us && h1[j].jitter_us
            <= h2[j].jitter_us by {
            if j != k {
                assert(h2[j] == h1[j]);
            }
        }
    }
    if k < i {
        assert(task_dominated(ts[i], ts[i]));
        lemma_response_monotone(h1, ts[i], h2, ts[i]);
    } else {
        lemma_response_monotone(h1, ts[i], h2, t);
    }
}

/// Raising one execution time never shortens a response time: for any task
/// at or above `i`, a larger execution time gives task `i` a response time
/// no smaller, whenever both analyses report one.
pub proof fn lemma_raising_execution_never_shortens_a_response(
    ts: Seq<Task>,
    k: int,
    c: int,
    i: int,
)
    requires
        valid_tasks(ts),
        0 <= k <= i < ts.len(),
        ts[k].wcet_us <= c <= u64::MAX,
        response_spec(ts, i).response_time_spec() is Some,
        response_spec(with_wcet(ts, k, c), i).response_time_spec() is Some,
    ensures
        response_spec(ts, i).response_time_spec()->Some_0 <= response_spec(
            with_wcet(ts, k, c),
            i,
        ).response_time_spec()->Some_0,
{
    lemma_heavier_task_never_shortens(ts, k, Task { wcet_us: c as u64, ..ts[k] }, i);
}

/// Adding jitter never shortens a response time: more release jitter on any
/// task at or above `i` gives task `i` a response time no smaller, whenever
/// both analyses report one.
pub proof fn lemma_adding_jitter_never_shortens_a_response(
    ts: Seq<Task>,
    k: int,
    jitter: u64,
    i: int,
)
    requires
        valid_tasks(ts),
        0 <= k <= i < ts.len(),
        ts[k].jitter_us <= jitter,
        response_spec(ts, i).response_time_spec() is Some,
        response_spec(ts.update(k, Task { jitter_us: jitter, ..ts[k] }), i).response_time_spec() is Some,
    ensures
        response_spec(ts, i).response_time_spec()->Some_0 <= response_spec(
            ts.update(k, Task { jitter_us: jitter, ..ts[k] }),
            i,
        ).response_time_spec()->Some_0,
{
    lemma_heavier_task_never_shortens(ts, k, Task { jitter_us: jitter, ..ts[k] }, i);
}

/// More work anywhere at or above a task never shortens its response: if
/// every task at or above `i` in `ts2` has the period it has in `ts` and no
/// less execution time or jitter, and task `i` no less blocking, then task
/// `i`'s response time in `ts2` is no smaller, whenever both analyses report
/// one. Jitter added to every task at once is one case.
pub proof fn lemma_more_work_everywhere_never_shortens_a_response(
    ts: Seq<Task>,
    ts2: Seq<Task>,
    i: int,
)
    requires
        valid_tasks(ts2),
        0 <= i < ts.len(),
        i < ts2.len(),
        forall|j: int|
            0 <= j <= i ==> (#[trigger] ts[j]).period_us == ts2[j].period_us && ts[j].wcet_us
                <= ts2[j].wcet_us && ts[j].jitter_us <= ts2[j].jitter_us,
        ts[i].blocking_us <= ts2[i].blocking_us,
        response_spec(ts, i).response_time_spec() is Some,
        response_spec(ts2, i).response_time_spec() is Some,
    ensures
        response_spec(ts, i).response_time_spec()->Some_0 <= response_spec(
            ts2,
            i,
        ).response_time_spec()->Some_0,
{
    let h1 = ts.take(i);
    let h2 = ts2.take(i);
    assert(interference_dominated(h1, h2)) by {
        assert forall|k: int| 0 <= k < h1.len() implies (#[trigger] h1[k]).period_us
            == h2[k].period_us && h1[k].wcet_us <= h2[k].wcet_us && h1[k].jitter_us
            <= h2[k].jitter_us by {
            assert(h1[k] == ts[k]);
            assert(h2[k] == ts2[k]);
        }
    }
    assert(crate::monotone::periods_positive(h2)) by {
        assert forall|k: int| 0 <= k < h2.len() implies (#[trigger] h2[k]).period_us > 0 by {
            assert(h2[k] == ts2[k]);
            assert(admissible(ts2[k]));
        }
    }
    assert(admissible(ts2[i]));
    assert(task_dominated(ts[i], ts2[i]));
    lemma_response_monotone(h1, ts[i], h2, ts2[i]);
}

/// What reaches a task's answer is its own parameters, bar its name, and the
/// execution times, periods and jitters of the tasks above it: the blocking
/// terms, deadlines and names above, and every task below, never do.
pub proof fn lemma_answer_reads_only_the_work_above(ts: Seq<Task>, ts2: Seq<Task>, i: int)
    requires
        0 <= i < ts.len(),
        i < ts2.len(),
        forall|j: int|
            0 <= j < i ==> (#[trigger] ts[j]).wcet_us == ts2[j].wcet_us && ts[j].period_us
                == ts2[j].period_us && ts[j].jitter_us == ts2[j].jitter_us,
        crate::symmetry::same_but_name(ts[i], ts2[i]),
    ensures
        response_spec(ts, i) == response_spec(ts2, i),
{
    let h1 = ts.take(i);
    let h2 = ts2.take(i);
    assert(profiles(h1) =~= profiles(h2)) by {
        assert forall|k: int| 0 <= k < h1.len() implies profiles(h1)[k] == profiles(h2)[k] by {
            assert(h1[k] == ts[k]);
            assert(h2[k] == ts2[k]);
        }
    }
    lemma_analyse_same_profiles(h1, h2, ts[i]);
    crate::symmetry::lemma_analyse_ignores_name(h2, ts[i], ts2[i]);
}

/// `ts` with the tasks at `i - 1` and `i` exchanged: task `i` one priority
/// level higher.
pub open spec fn raised(ts: Seq<Task>, i: int) -> Seq<Task> {
    ts.update(i - 1, ts[i]).update(i, ts[i - 1])
}

/// A higher priority never slows a task: raising task `i` one level gives it
/// a response time no larger, whenever both analyses report one.
pub proof fn lemma_a_higher_priority_never_slows_a_task(ts: Seq<Task>, i: int)
    requires
        valid_tasks(ts),
        1 <= i < ts.len(),
        response_spec(ts, i).response_time_spec() is Some,
        response_spec(raised(ts, i), i - 1).response_time_spec() is Some,
    ensures
        response_spec(raised(ts, i), i - 1).response_time_spec()->Some_0 <= response_spec(
            ts,
            i,
        ).response_time_spec()->Some_0,
{
    let up = raised(ts, i);
    assert(up.take(i - 1) =~= ts.take(i - 1));
    assert(up[i - 1] == ts[i]);
    let h1 = ts.take(i - 1);
    let h2 = ts.take(i);
    lemma_prefix_valid(ts, i);
    assert(interference_dominated(h1, h2)) by {
        assert forall|j: int| 0 <= j < h1.len() implies (#[trigger] h1[j]).period_us
            == h2[j].period_us && h1[j].wcet_us <= h2[j].wcet_us && h1[j].jitter_us
            <= h2[j].jitter_us by {
            assert(h1[j] == h2[j]);
        }
    }
    lemma_response_monotone(h1, ts[i], h2, ts[i]);
}

/// The blocking term and the deadline of a higher-priority task never reach
/// a lower one: changing them leaves the answer for every task below
/// unchanged.
pub proof fn lemma_higher_blocking_never_reaches_below(
    ts: Seq<Task>,
    k: int,
    blocking: u64,
    deadline: u64,
    i: int,
)
    requires
        0 <= k < i < ts.len(),
    ensures
        response_spec(ts.update(k, Task { blocking_us: blocking, deadline_us: deadline, ..ts[k] }), i)
            == response_spec(ts, i),
{
    let t = Task { blocking_us: blocking, deadline_us: deadline, ..ts[k] };
    lemma_replace_views(ts, k, t, i);
    let h1 = ts.take(i);
    let h2 = ts.update(k, t).take(i);
    assert(profiles(h1) =~= profiles(h2));
    assert(same_profiles(h2, h1));
    lemma_analyse_same_profiles(h2, h1, ts[i]);
}

/// Audsley's assignment is optimal wherever the analysis is exact: if some
/// order of the tasks meets every deadline, the assignment finds an order
/// (which then meets every deadline too). Exact here means that no task,
/// analysed below any selection of the others, is refused by an iteration
/// cap, the busy-period cap or overflow; a refusal of that kind is not a
/// proof that a task misses, and the search may then report no order.
pub proof fn lemma_priority_order_is_optimal(ts: Seq<Task>, p: Seq<int>)
    requires
        valid_tasks(ts),
        answers_without_limits(ts),
        selection(p, ts.len() as int),
        p.len() == ts.len(),
        schedulable(pick(ts, p)),
    ensures
        priority_order(ts) is Some,
{
    let n = ts.len() as int;
    lemma_full_selection_covers(p, n);
    let none_taken = Seq::new(n as nat, |j: int| false);
    assert forall|x: int| #[trigger] p.contains(x) <==> (0 <= x < n && !none_taken[x]) by {
        if p.contains(x) {
            let i = choose|i: int| 0 <= i < p.len() && p[i] == x;
        }
    }
    assert forall|m: int| 0 <= m < p.len() implies analyse(pick(ts, p.take(m)), ts[#[trigger] p[m]])
        is Bounded by {
        let applied = pick(ts, p);
        assert(applied.take(m) =~= pick(ts, p.take(m)));
        assert(applied[m] == ts[p[m]]);
        assert(response_spec(applied, m) is Bounded);
    }
    lemma_audsley_succeeds(ts, none_taken, p);
}

/// Some refusals are decided before any iteration: an index past the end is
/// named as such, a level whose utilisation cannot be represented is an
/// overflow, and a level above full utilisation has no fixed point. Nor has a
/// level at exactly full utilisation (floored, so at least one in truth) that
/// is disturbed, by blocking of the task or by jitter on any nonzero work at
/// or above it.
pub proof fn lemma_refusals_decided_before_iterating(ts: Seq<Task>, i: int)
    ensures
        !(0 <= i < ts.len()) ==> response_spec(ts, i) == Response::Refused(
            AnalysisFailure::NoSuchTask,
        ),
        0 <= i < ts.len() && level_utilisation(ts.take(i + 1)) is None ==> response_spec(ts, i)
            == Response::Refused(AnalysisFailure::Overflow),
        0 <= i < ts.len() && level_utilisation(ts.take(i + 1)) is Some && level_utilisation(
            ts.take(i + 1),
        )->Some_0 > crate::FULL_UTILISATION_PPM ==> response_spec(ts, i) == Response::Refused(
            AnalysisFailure::NonConvergent,
        ),
        0 <= i < ts.len() && level_utilisation(ts.take(i + 1)) == Some(crate::FULL_UTILISATION_PPM)
            && (ts[i].blocking_us > 0 || exists|j: int|
            0 <= j <= i && (#[trigger] ts[j]).jitter_us > 0 && ts[j].wcet_us > 0)
            ==> response_spec(ts, i) == Response::Refused(AnalysisFailure::NonConvergent),
{
    if 0 <= i < ts.len() {
        let level = ts.take(i + 1);
        assert(level =~= ts.take(i).push(ts[i]));
        if exists|j: int| 0 <= j <= i && (#[trigger] ts[j]).jitter_us > 0 && ts[j].wcet_us > 0 {
            let j = choose|j: int| 0 <= j <= i && (#[trigger] ts[j]).jitter_us > 0 && ts[j].wcet_us > 0;
            let jt = crate::model::jitter_term();
            assert(level[j] == ts[j]);
            assert forall|k: int| 0 <= k < level.len() implies jt(#[trigger] level[k]) >= 0 by {}
            crate::model::lemma_sum_bounds_term(level, j, level.len() as int, jt);
            crate::model::lemma_sum_prefix_mono(level, 0, j, jt);
            assert(level.take(level.len() as int) =~= level);
        }
    }
}

/// A `NonConvergent` answer is a proof, not a limit reached: the busy-period
/// recurrence of the level, `L = B + Σ ⌈(L + Jⱼ)/Tⱼ⌉·Cⱼ` over the task and
/// those above it, has no positive solution. Above full utilisation the work
/// released outgrows every window; at exactly full utilisation, blocking or
/// jitter adds a surplus no window absorbs.
pub proof fn lemma_non_convergent_has_no_fixed_point(ts: Seq<Task>, i: int, l: int)
    requires
        valid_tasks(ts),
        0 <= i < ts.len(),
        response_spec(ts, i) == Response::Refused(AnalysisFailure::NonConvergent),
        l > 0,
    ensures
        l != ts[i].blocking_us + sum_of(ts.take(i + 1), crate::model::demand_term(l)),
{
    let level = ts.take(i + 1);
    let t = ts[i];
    assert(level =~= ts.take(i).push(t));
    crate::assignment::lemma_analyse_outcomes(ts.take(i), t);
    assert(crate::monotone::periods_positive(level)) by {
        assert forall|j: int| 0 <= j < level.len() implies (#[trigger] level[j]).period_us > 0 by {
            assert(level[j] == ts[j]);
            assert(admissible(ts[j]));
        }
    }
    let u = level_utilisation(level)->Some_0;
    assert forall|j: int| 0 <= j < level.len() implies crate::model::util_term()(
        #[trigger] level[j],
    ) >= 0 by {
        assert(level[j].period_us > 0);
        vstd::arithmetic::div_mod::lemma_div_pos_is_pos(
            level[j].wcet_us * crate::FULL_UTILISATION_PPM,
            level[j].period_us as int,
        );
    }
    crate::model::lemma_sum_prefix_mono(level, 0, level.len() as int, crate::model::util_term());
    assert(level.take(level.len() as int) =~= level);
    assert(u as int == sum_of(level, crate::model::util_term()));
    crate::exact::lemma_exact_split(level);
    crate::exact::lemma_demand_covers_utilisation(level, l);
    let en = crate::exact::exact_num(level);
    let ed = crate::exact::exact_den(level);
    let rn = crate::exact::rem_num(level);
    let rd = crate::exact::rem_den(level);
    let d = sum_of(level, crate::model::demand_term(l));
    let f = crate::FULL_UTILISATION_PPM as int;
    let b = t.blocking_us as int;
    let delta = if sum_of(level, crate::model::jitter_term()) > 0 {
        1int
    } else {
        0int
    };
    assert(en >= u * ed) by (nonlinear_arith)
        requires
            en * rd == (u * rd + rn) * ed,
            rn >= 0,
            rd > 0,
            ed > 0,
    {
        assert((u * rd + rn) * ed >= (u * rd) * ed);
        assert(en * rd >= (u * ed) * rd);
    }
    if l == b + d {
        assert(f * l * ed >= f * b * ed + l * (u * ed) + delta) by (nonlinear_arith)
            requires
                l == b + d,
                f * d * ed >= l * en + delta,
                en >= u * ed,
                l > 0,
        {
            assert(f * l * ed == f * b * ed + f * d * ed);
            assert(l * en >= l * (u * ed));
        }
        if u > f {
            assert(l * (u * ed) >= f * l * ed + l * ed && l * ed > 0 && f * b * ed >= 0)
                by (nonlinear_arith)
                requires
                    u >= f + 1,
                    l > 0,
                    ed > 0,
                    b >= 0,
                    f > 0,
            ;
        } else {
            assert(u == f);
            assert(crate::model::disturbed(ts.take(i), t));
            assert(l * (u * ed) == f * l * ed) by (nonlinear_arith)
                requires
                    u == f,
            ;
            assert(b > 0 ==> f * b * ed > 0) by (nonlinear_arith)
                requires
                    f > 0,
                    ed > 0,
            ;
            assert(f * b * ed >= 0) by (nonlinear_arith)
                requires
                    f > 0,
                    ed > 0,
                    b >= 0,
            ;
        }
    }
}

/// The pre-check speaks only within Liu and Layland's theorem: a set that
/// passes has every deadline equal to its period, no blocking and no jitter,
/// periods that never fall from one priority to the next (rate-monotonic
/// order), and a floored utilisation within the bound for its size. It
/// passes exactly when those premises hold and the exact utilisation
/// `Σ Cⱼ·10⁶/Tⱼ = exact_num / exact_den` is within the bound.
pub proof fn lemma_precheck_holds_only_within_its_theorem(ts: Seq<Task>)
    ensures
        crate::model::passes_liu_layland(ts) ==> forall|k: int|
            0 <= k < ts.len() ==> (#[trigger] ts[k]).deadline_us == ts[k].period_us
                && ts[k].blocking_us == 0 && ts[k].jitter_us == 0,
        crate::model::passes_liu_layland(ts) ==> forall|k: int|
            0 < k < ts.len() ==> ts[k - 1].period_us <= (#[trigger] ts[k]).period_us,
        crate::model::passes_liu_layland(ts) && valid_tasks(ts) ==> (level_utilisation(ts) matches Some(u) && u
            <= liu_layland_table(ts.len() as int)),
        crate::model::passes_liu_layland(ts) <==> ((forall|k: int|
            0 <= k < ts.len() ==> (#[trigger] ts[k]).deadline_us == ts[k].period_us
                && ts[k].blocking_us == 0 && ts[k].jitter_us == 0) && (forall|k: int|
            0 < k < ts.len() ==> ts[k - 1].period_us <= (#[trigger] ts[k]).period_us)
            && level_utilisation(ts) is Some && crate::exact::exact_num(ts) <= liu_layland_table(
            ts.len() as int,
        ) * crate::exact::exact_den(ts)),
{
    if crate::model::passes_liu_layland(ts) && valid_tasks(ts) {
        let u = level_utilisation(ts)->Some_0;
        let b = liu_layland_table(ts.len() as int) as int;
        assert(crate::monotone::periods_positive(ts)) by {
            assert forall|j: int| 0 <= j < ts.len() implies (#[trigger] ts[j]).period_us > 0 by {
                assert(admissible(ts[j]));
            }
        }
        assert forall|j: int| 0 <= j < ts.len() implies crate::model::util_term()(#[trigger] ts[j])
            >= 0 by {
            assert(ts[j].period_us > 0);
            vstd::arithmetic::div_mod::lemma_div_pos_is_pos(
                ts[j].wcet_us * crate::FULL_UTILISATION_PPM,
                ts[j].period_us as int,
            );
        }
        crate::model::lemma_sum_prefix_mono(ts, 0, ts.len() as int, crate::model::util_term());
        assert(ts.take(ts.len() as int) =~= ts);
        crate::exact::lemma_exact_split(ts);
        crate::exact::lemma_exact_compare(ts, b);
        let rn = crate::exact::rem_num(ts);
        let rd = crate::exact::rem_den(ts);
        assert(u <= b) by (nonlinear_arith)
            requires
                0 <= rn <= (b - u) * rd,
                rd > 0,
        ;
    }
}

/// An undecided priority search names a limit of the analysis, never a
/// finding: the refusal it carries is neither a response past the deadline
/// nor a level with no fixed point.
pub proof fn lemma_an_undecided_search_names_a_limit(ts: Seq<Task>)
    ensures
        crate::model::priority_limit(ts) matches Some(f) ==> !(f is ExceedsDeadline) && !(
        f is NonConvergent),
{
    crate::assignment::lemma_audsley_limit_is_a_limit(
        ts,
        Seq::new(ts.len(), |j: int| false),
        ts.len(),
    );
}

/// A search that finds no order stopped at a real level: some tasks placed
/// below, at least one still free, and every free one refused at the lowest
/// free level. If it names no limit, every one of those refusals is a
/// finding (a response past the deadline, or no fixed point); if it names a
/// limit, some free task was refused with exactly that limit.
pub proof fn lemma_a_failed_search_stopped_at_a_level(ts: Seq<Task>)
    ensures
        priority_order(ts) is None ==> exists|t2: Seq<bool>|
            crate::assignment::stopped_at(ts, t2, crate::model::priority_limit(ts)),
{
    if priority_order(ts) is None {
        crate::assignment::lemma_all_free(ts.len());
        crate::assignment::lemma_audsley_stops_at_a_level(
            ts,
            Seq::new(ts.len(), |j: int| false),
            ts.len(),
        );
    }
}

/// A task's utilisation is `C·10⁶ / T` floored: the one `v` with
/// `v·T ≤ C·10⁶ < (v + 1)·T`, and there is none only for a zero period or a
/// product past `u64`.
pub proof fn lemma_task_utilisation_is_the_floored_ratio(t: Task)
    ensures
        t.utilisation_spec() is None <==> (t.period_us == 0 || t.wcet_us * 1_000_000 > u64::MAX),
        t.utilisation_spec() matches Some(v) ==> v * t.period_us <= t.wcet_us * 1_000_000 < (v
            + 1) * t.period_us,
{
    if t.period_us > 0 && t.wcet_us * 1_000_000 <= u64::MAX {
        crate::task::lemma_floor_ratio(t.wcet_us * 1_000_000, t.period_us as int);
    }
}

/// The Liu and Layland table never rises with the number of tasks, and never
/// falls below `ln 2`, floored.
pub proof fn lemma_liu_layland_table_descends(n: int)
    requires
        n >= 0,
    ensures
        liu_layland_table(n + 1) <= liu_layland_table(n),
        2 <= n <= 15 ==> liu_layland_table(n + 1) < liu_layland_table(n),
        liu_layland_table(n) >= 693_147,
{
}

/// Below the task whose execution time changes, nothing changes: a task of
/// higher priority than `k` keeps its answer whatever `k` executes.
proof fn lemma_lower_tasks_never_reach_above(ts: Seq<Task>, k: int, c: int, i: int)
    requires
        0 <= i < k < ts.len(),
    ensures
        response_spec(with_wcet(ts, k, c), i) == response_spec(ts, i),
{
    assert(with_wcet(ts, k, c).take(i) =~= ts.take(i));
}

/// Where the analysis is exact for every execution time task `k` could be
/// given, a set that holds with task `k` taking `y` longer still holds with
/// it taking any `x ≤ y` longer.
pub proof fn lemma_fits_with_less(ts: Seq<Task>, k: int, x: int, y: int)
    requires
        valid_tasks(ts),
        0 <= k < ts.len(),
        0 <= x <= y,
        fits_with_extra(ts, k, y),
        forall|i: int|
            0 <= i < ts.len() ==> !crate::assignment::is_limit(
                #[trigger] response_spec(with_wcet(ts, k, ts[k].wcet_us + x), i),
            ),
    ensures
        fits_with_extra(ts, k, x),
{
    let cx = ts[k].wcet_us + x;
    let cy = ts[k].wcet_us + y;
    let sx = with_wcet(ts, k, cx);
    let sy = with_wcet(ts, k, cy);
    assert(valid_tasks(sx)) by {
        assert forall|j: int| 0 <= j < sx.len() implies admissible(#[trigger] sx[j]) by {
            if j != k {
                assert(sx[j] == ts[j]);
            }
        }
    }
    assert(with_wcet(sx, k, cy) =~= sy);
    assert(sx[k].wcet_us == cx);
    assert forall|i: int| 0 <= i < sx.len() implies (#[trigger] response_spec(sx, i)) is Bounded by {
        if i < k {
            lemma_lower_tasks_never_reach_above(ts, k, cx, i);
            lemma_lower_tasks_never_reach_above(ts, k, cy, i);
            assert(response_spec(sy, i) is Bounded);
        } else {
            assert(response_spec(sy, i) is Bounded);
            lemma_response_time_exists_below(sx, k, cy, i);
            lemma_raising_execution_never_shortens_a_response(sx, k, cy, i);
            lemma_bounded_meets_deadline(sy, i);
            lemma_bounded_meets_deadline(sx, i);
            assert(sy[i].deadline_us == sx[i].deadline_us);
        }
    }
}

/// The sensitivity found is the largest increase that fits: where one more
/// microsecond no longer fits, and the analysis with that microsecond meets
/// no limit of the implementation, no larger increase fits either.
pub proof fn lemma_sensitivity_is_the_largest_increase(ts: Seq<Task>, k: int, x: int, y: int)
    requires
        valid_tasks(ts),
        0 <= k < ts.len(),
        0 <= x < y,
        !fits_with_extra(ts, k, x + 1),
        forall|i: int|
            0 <= i < ts.len() ==> !crate::assignment::is_limit(
                #[trigger] response_spec(with_wcet(ts, k, ts[k].wcet_us + (x + 1)), i),
            ),
    ensures
        !fits_with_extra(ts, k, y),
{
    if fits_with_extra(ts, k, y) {
        lemma_fits_with_less(ts, k, x + 1, y);
    }
}

/// A set whose answer for task `i` is bounded with task `k` executing `c`
/// longer still has a response time for `i` with `k` executing less, when
/// that analysis meets no limit of the implementation.
proof fn lemma_response_time_exists_below(ts: Seq<Task>, k: int, c: int, i: int)
    requires
        valid_tasks(ts),
        0 <= k <= i < ts.len(),
        ts[k].wcet_us <= c <= ts[k].deadline_us,
        response_spec(with_wcet(ts, k, c), i) is Bounded,
        !crate::assignment::is_limit(response_spec(ts, i)),
    ensures
        response_spec(ts, i).response_time_spec() is Some,
{
    let big = with_wcet(ts, k, c);
    let h = ts.take(i);
    let t = ts[i];
    crate::assignment::lemma_analyse_outcomes(h, t);
    // The level with less work is no more utilised.
    assert(ts.take(i + 1) =~= h.push(t));
    assert(big.take(i + 1) =~= big.take(i).push(big[i]));
    lemma_level_utilisation_le(ts, k, c, i);
    if response_spec(ts, i) == Response::Refused(AnalysisFailure::NonConvergent) {
        // More work never removes a disturbance.
        let jt = crate::model::jitter_term();
        let a = ts.take(i + 1);
        let b = big.take(i + 1);
        assert forall|j: int| 0 <= j < a.len() implies jt(#[trigger] a[j]) <= jt(b[j]) by {
            assert(a[j] == ts[j]);
            if j != k {
                assert(b[j] == ts[j]);
            }
        }
        crate::monotone::lemma_sum_paired_le(a, b, jt, jt);
        assert(big[i].blocking_us == t.blocking_us);
        assert(crate::model::disturbed(big.take(i), big[i]));
    }
}

/// Raising one execution time raises no level's utilisation less than it
/// was.
proof fn lemma_level_utilisation_le(ts: Seq<Task>, k: int, c: int, i: int)
    requires
        valid_tasks(ts),
        0 <= k <= i < ts.len(),
        ts[k].wcet_us <= c <= ts[k].deadline_us,
        level_utilisation(with_wcet(ts, k, c).take(i + 1)) is Some,
    ensures
        level_utilisation(ts.take(i + 1)) is Some,
        level_utilisation(ts.take(i + 1))->Some_0 <= level_utilisation(
            with_wcet(ts, k, c).take(i + 1),
        )->Some_0,
{
    let a = ts.take(i + 1);
    let b = with_wcet(ts, k, c).take(i + 1);
    assert forall|j: int| 0 <= j < a.len() implies crate::model::util_term()(#[trigger] a[j])
        <= crate::model::util_term()(b[j]) && (a[j].utilisation_spec() is Some) by {
        assert(a[j] == ts[j]);
        assert(b[j].utilisation_spec() is Some);
        if j == k {
            vstd::arithmetic::mul::lemma_mul_inequality(
                ts[k].wcet_us as int,
                c,
                crate::FULL_UTILISATION_PPM as int,
            );
            vstd::arithmetic::div_mod::lemma_div_is_ordered(
                ts[k].wcet_us * crate::FULL_UTILISATION_PPM,
                c * crate::FULL_UTILISATION_PPM,
                ts[k].period_us as int,
            );
        } else {
            assert(b[j] == ts[j]);
        }
    }
    crate::monotone::lemma_sum_paired_le(a, b, crate::model::util_term(), crate::model::util_term());
    assert forall|j: int| 0 <= j < a.len() implies crate::model::util_term()(#[trigger] a[j]) >= 0 by {
        assert(a[j] == ts[j]);
        vstd::arithmetic::div_mod::lemma_div_pos_is_pos(
            a[j].wcet_us * crate::FULL_UTILISATION_PPM,
            a[j].period_us as int,
        );
    }
    crate::model::lemma_sum_prefix_mono(a, 0, a.len() as int, crate::model::util_term());
    crate::model::lemma_sum_take_all(a, crate::model::util_term());
    assert(a.take(0) =~= Seq::<Task>::empty());
}

} // verus!
