//! More work never shortens a response: the answer for a task grows with
//! its own execution time, blocking and jitter, and with the work of the
//! tasks above it, whenever both answers carry a response time.
use vstd::prelude::*;

use crate::model::{
    analyse, busy_period, cap, ceil_div, demand_term, job_base, job_response, jobs_in_busy_period,
    lemma_ceil_div_basics, lemma_demand_nonneg, lemma_job_refusals, lemma_solve_least,
    lemma_solve_settles_on_fixed_point, lemma_sum_pointwise_le, lemma_sum_prefix_mono,
    lemma_sum_take_all, lemma_wcet_sum_nonneg, lemma_worst_response_bounds, recurrence, releases,
    solve, sum_of, wcet_term, windows_fit, worst_response,
};
use crate::response::{AnalysisFailure, Response};
use crate::task::Task;

verus! {

/// `t2` asks at least as much as `t1` of the processor: the same period, and
/// no less execution time, blocking or jitter.
pub open spec fn task_dominated(t1: Task, t2: Task) -> bool {
    &&& t1.period_us == t2.period_us
    &&& t1.wcet_us <= t2.wcet_us
    &&& t1.blocking_us <= t2.blocking_us
    &&& t1.jitter_us <= t2.jitter_us
}

/// The tasks `h2` interfere at least as much as `h1`: `h1` is no longer, and
/// each of its tasks is matched, position for position, by one of `h2` with
/// the same period and no less execution time or jitter.
pub open spec fn interference_dominated(h1: Seq<Task>, h2: Seq<Task>) -> bool {
    &&& h1.len() <= h2.len()
    &&& forall|k: int|
        0 <= k < h1.len() ==> (#[trigger] h1[k]).period_us == h2[k].period_us && h1[k].wcet_us
            <= h2[k].wcet_us && h1[k].jitter_us <= h2[k].jitter_us
}

/// Every task of `s` has a nonzero period.
pub open spec fn periods_positive(s: Seq<Task>) -> bool {
    forall|k: int| 0 <= k < s.len() ==> (#[trigger] s[k]).period_us > 0
}

/// Over dominated tasks, every sum of work is no larger and every window
/// that fits above still fits.
proof fn lemma_dominated_sums(h1: Seq<Task>, h2: Seq<Task>, w1: int, w2: int)
    requires
        interference_dominated(h1, h2),
        periods_positive(h2),
        0 <= w1 <= w2,
    ensures
        sum_of(h1, demand_term(w1)) <= sum_of(h2, demand_term(w2)),
        sum_of(h1, wcet_term()) <= sum_of(h2, wcet_term()),
        windows_fit(h2, w2) ==> windows_fit(h1, w1),
{
    let n1 = h1.len() as int;
    let p = h2.take(n1);
    assert forall|k: int| 0 <= k < h1.len() implies demand_term(w1)(#[trigger] h1[k])
        <= demand_term(w2)(p[k]) by {
        let a = h1[k];
        let b = p[k];
        assert(b == h2[k]);
        lemma_ceil_div_basics(w1 + a.jitter_us, w2 + b.jitter_us, a.period_us as int);
        vstd::arithmetic::mul::lemma_mul_nonnegative(releases(a, w1), a.wcet_us as int);
        vstd::arithmetic::mul::lemma_mul_inequality(
            releases(a, w1),
            releases(b, w2),
            a.wcet_us as int,
        );
        vstd::arithmetic::mul::lemma_mul_inequality(
            a.wcet_us as int,
            b.wcet_us as int,
            releases(b, w2),
        );
        vstd::arithmetic::mul::lemma_mul_is_commutative(releases(b, w2), a.wcet_us as int);
        vstd::arithmetic::mul::lemma_mul_is_commutative(releases(b, w2), b.wcet_us as int);
    }
    lemma_sum_pointwise_paired(h1, p, demand_term(w1), demand_term(w2));
    assert forall|k: int| 0 <= k < h1.len() implies wcet_term()(#[trigger] h1[k]) <= wcet_term()(
        p[k],
    ) by {
        assert(p[k] == h2[k]);
    }
    lemma_sum_pointwise_paired(h1, p, wcet_term(), wcet_term());
    lemma_demand_nonneg(h2, w2);
    lemma_sum_prefix_mono(h2, n1, h2.len() as int, demand_term(w2));
    lemma_sum_take_all(h2, demand_term(w2));
    assert forall|k: int| 0 <= k < h2.len() implies wcet_term()(#[trigger] h2[k]) >= 0 by {}
    lemma_sum_prefix_mono(h2, n1, h2.len() as int, wcet_term());
    lemma_sum_take_all(h2, wcet_term());
    if windows_fit(h2, w2) {
        assert forall|j: int| 0 <= j < h1.len() implies w1 + (#[trigger] h1[j]).jitter_us
            <= u64::MAX by {
            assert(w2 + h2[j].jitter_us <= u64::MAX);
        }
    }
}

/// Sums over two sequences of one length, term by term no larger, are no
/// larger.
proof fn lemma_sum_pointwise_paired(
    s1: Seq<Task>,
    s2: Seq<Task>,
    f: spec_fn(Task) -> int,
    g: spec_fn(Task) -> int,
)
    requires
        s1.len() == s2.len(),
        forall|k: int| 0 <= k < s1.len() ==> f(#[trigger] s1[k]) <= g(s2[k]),
    ensures
        sum_of(s1, f) <= sum_of(s2, g),
    decreases s1.len(),
{
    if s1.len() > 0 {
        let a = s1.drop_last();
        let b = s2.drop_last();
        assert forall|k: int| 0 <= k < a.len() implies f(#[trigger] a[k]) <= g(b[k]) by {
            assert(a[k] == s1[k]);
            assert(b[k] == s2[k]);
        }
        lemma_sum_pointwise_paired(a, b, f, g);
        assert(f(s1[s1.len() - 1]) <= g(s2[s1.len() - 1]));
    }
}

/// A search whose first step does not go down only climbs: what it settles
/// on is at or above where it started.
proof fn lemma_solve_climbs(higher: Seq<Task>, base: int, w: int, fuel: nat)
    requires
        0 <= w,
        periods_positive(higher),
        solve(higher, base, w, fuel) is Ok,
        recurrence(higher, base, w) matches Some(n) && n >= w,
    ensures
        solve(higher, base, w, fuel)->Ok_0 >= w,
    decreases fuel,
{
    let next = recurrence(higher, base, w)->Some_0;
    if next != w {
        crate::model::lemma_demand_mono(higher, w, next);
        lemma_solve_climbs(higher, base, next, (fuel - 1) as nat);
    }
}

/// Of two settled searches, the one over less work from a lower start
/// settles lower, provided its start lies below where the other settles.
proof fn lemma_solve_dominated(
    h1: Seq<Task>,
    b1: int,
    s1: int,
    h2: Seq<Task>,
    b2: int,
    s2: int,
)
    requires
        interference_dominated(h1, h2),
        periods_positive(h2),
        0 <= b1 <= b2,
        0 <= b2 <= s2,
        b1 <= s1,
        solve(h1, b1, s1, cap()) is Ok,
        solve(h2, b2, s2, cap()) is Ok,
        s1 <= solve(h2, b2, s2, cap())->Ok_0,
    ensures
        solve(h1, b1, s1, cap())->Ok_0 <= solve(h2, b2, s2, cap())->Ok_0,
{
    let x2 = solve(h2, b2, s2, cap())->Ok_0;
    lemma_solve_settles_on_fixed_point(h2, b2, s2, cap());
    lemma_dominated_sums(h1, h2, x2, x2);
    assert forall|k: int| 0 <= k < h1.len() implies (#[trigger] h1[k]).period_us > 0 by {
        assert(h1[k].period_us == h2[k].period_us);
    }
    lemma_solve_least(h1, b1, s1, cap(), x2);
}

/// More work never shortens a response. When the answer for `t1` below
/// `h1` and the answer for `t2` below `h2` both carry a response time, and
/// `t2` and `h2` ask at least as much of the processor as `t1` and `h1`,
/// the second response time is at least the first.
pub proof fn lemma_response_monotone(h1: Seq<Task>, t1: Task, h2: Seq<Task>, t2: Task)
    requires
        interference_dominated(h1, h2),
        task_dominated(t1, t2),
        periods_positive(h2),
        t2.period_us > 0,
        analyse(h1, t1).response_time_spec() is Some,
        analyse(h2, t2).response_time_spec() is Some,
    ensures
        analyse(h1, t1).response_time_spec()->Some_0 <= analyse(h2, t2).response_time_spec()->Some_0,
{
    lemma_answer_parts(h1, t1);
    lemma_answer_parts(h2, t2);
    // The busy periods.
    let l1 = h1.push(t1);
    let l2 = h2.push(t2);
    assert(interference_dominated(l1, l2) || h1.len() < h2.len());
    let busy1 = busy_period(h1, t1)->Ok_0;
    let busy2 = busy_period(h2, t2)->Ok_0;
    lemma_busy_dominated(h1, t1, h2, t2);
    // The job counts.
    let n1 = jobs_in_busy_period(t1, busy1);
    let n2 = jobs_in_busy_period(t2, busy2);
    lemma_ceil_div_basics(busy1 + t1.jitter_us, busy2 + t2.jitter_us, t1.period_us as int);
    assert(n1 <= n2);
    // Job by job.
    lemma_worst_response_bounds(h1, t1, n1);
    lemma_worst_response_bounds(h2, t2, n2);
    let w1 = worst_response(h1, t1, n1)->Ok_0;
    let q = choose|q: int|
        0 <= q < n1 && (#[trigger] job_response(h1, t1, q)) == Ok::<int, AnalysisFailure>(w1);
    assert(job_response(h2, t2, q) is Ok);
    lemma_job_dominated(h1, t1, h2, t2, q);
}

/// When an answer carries a response time, its busy period and its worst
/// job were found, and the response time is the worst job's.
pub proof fn lemma_answer_parts(h: Seq<Task>, t: Task)
    requires
        analyse(h, t).response_time_spec() is Some,
    ensures
        busy_period(h, t) is Ok,
        busy_period(h, t)->Ok_0 + t.jitter_us <= u64::MAX,
        worst_response(h, t, jobs_in_busy_period(t, busy_period(h, t)->Ok_0)) is Ok,
        analyse(h, t).response_time_spec()->Some_0 == worst_response(
            h,
            t,
            jobs_in_busy_period(t, busy_period(h, t)->Ok_0),
        )->Ok_0,
{
    let busy = busy_period(h, t)->Ok_0;
    let n = jobs_in_busy_period(t, busy);
    lemma_job_refusals(h, t, n);
    if worst_response(h, t, n) is Ok {
        lemma_worst_response_bounds(h, t, n);
    }
}

/// The busy period over less work is no longer.
proof fn lemma_busy_dominated(h1: Seq<Task>, t1: Task, h2: Seq<Task>, t2: Task)
    requires
        interference_dominated(h1, h2),
        task_dominated(t1, t2),
        periods_positive(h2),
        t2.period_us > 0,
        busy_period(h1, t1) is Ok,
        busy_period(h2, t2) is Ok,
    ensures
        0 <= busy_period(h1, t1)->Ok_0 <= busy_period(h2, t2)->Ok_0,
{
    let l1 = h1.push(t1);
    let l2 = h2.push(t2);
    let b1 = t1.blocking_us as int;
    let b2 = t2.blocking_us as int;
    let s1 = b1 + sum_of(l1, wcet_term());
    let s2 = b2 + sum_of(l2, wcet_term());
    let x2 = busy_period(h2, t2)->Ok_0;
    assert(l1.drop_last() =~= h1);
    assert(l2.drop_last() =~= h2);
    assert(periods_positive(l2)) by {
        assert forall|k: int| 0 <= k < l2.len() implies (#[trigger] l2[k]).period_us > 0 by {
            if k < h2.len() {
                assert(l2[k] == h2[k]);
            }
        }
    }
    assert(periods_positive(l1)) by {
        assert forall|k: int| 0 <= k < l1.len() implies (#[trigger] l1[k]).period_us > 0 by {
            if k < h1.len() {
                assert(l1[k] == h1[k]);
                assert(h1[k].period_us == h2[k].period_us);
            }
        }
    }
    lemma_wcet_sum_nonneg(h1);
    lemma_wcet_sum_nonneg(h2);
    // The search over the heavier level climbs from its start.
    lemma_step_from_seed_climbs(l2, s2, b2);
    lemma_solve_climbs(l2, b2, s2, cap());
    // The lighter level's start lies below where the heavier one settles, and
    // the heavier fixed point is not raised by the lighter recurrence.
    lemma_dominated_sums(h1, h2, x2, x2);
    lemma_dominated_sums(h1, h2, 0, 0);
    lemma_solve_settles_on_fixed_point(l2, b2, s2, cap());
    assert(sum_of(l1, demand_term(x2)) <= sum_of(l2, demand_term(x2))) by {
        lemma_ceil_div_basics(x2 + t1.jitter_us, x2 + t2.jitter_us, t1.period_us as int);
        vstd::arithmetic::mul::lemma_mul_inequality(
            releases(t1, x2),
            releases(t2, x2),
            t1.wcet_us as int,
        );
        vstd::arithmetic::mul::lemma_mul_inequality(
            t1.wcet_us as int,
            t2.wcet_us as int,
            releases(t2, x2),
        );
        vstd::arithmetic::mul::lemma_mul_is_commutative(releases(t2, x2), t1.wcet_us as int);
        vstd::arithmetic::mul::lemma_mul_is_commutative(releases(t2, x2), t2.wcet_us as int);
    }
    assert(windows_fit(l1, x2)) by {
        assert forall|j: int| 0 <= j < l1.len() implies x2 + (#[trigger] l1[j]).jitter_us
            <= u64::MAX by {
            if j < h1.len() {
                assert(l1[j] == h1[j]);
                assert(l2[j] == h2[j]);
                assert(x2 + h2[j].jitter_us <= u64::MAX);
            } else {
                assert(x2 + l2[l2.len() - 1].jitter_us <= u64::MAX);
            }
        }
    }
    lemma_solve_least(l1, b1, s1, cap(), x2);
    lemma_solve_settles_on_fixed_point(l1, b1, s1, cap());
}

/// From the start of a busy-period search, the first step does not go down:
/// every task of the level releases at least one job into a window as long
/// as all their work.
proof fn lemma_step_from_seed_climbs(level: Seq<Task>, seed: int, b: int)
    requires
        periods_positive(level),
        0 <= b,
        seed == b + sum_of(level, wcet_term()),
        recurrence(level, b, seed) is Some,
    ensures
        recurrence(level, b, seed)->Some_0 >= seed,
{
    lemma_wcet_sum_nonneg(level);
    assert forall|k: int| 0 <= k < level.len() implies wcet_term()(#[trigger] level[k])
        <= demand_term(seed)(level[k]) by {
        let t = level[k];
        lemma_sum_single_le(level, k);
        lemma_ceil_div_basics(seed + t.jitter_us, seed + t.jitter_us, t.period_us as int);
        if t.wcet_us > 0 {
            assert(seed >= t.wcet_us);
            assert(releases(t, seed) >= 1);
            vstd::arithmetic::mul::lemma_mul_inequality(1, releases(t, seed), t.wcet_us as int);
        } else {
            vstd::arithmetic::mul::lemma_mul_nonnegative(releases(t, seed), t.wcet_us as int);
        }
    }
    lemma_sum_pointwise_le(level, wcet_term(), demand_term(seed));
}

/// Each execution time is part of the level's total.
proof fn lemma_sum_single_le(level: Seq<Task>, k: int)
    requires
        0 <= k < level.len(),
    ensures
        level[k].wcet_us <= sum_of(level, wcet_term()),
{
    assert forall|j: int| 0 <= j < level.len() implies wcet_term()(#[trigger] level[j]) >= 0 by {}
    crate::model::lemma_sum_bounds_term(level, k, level.len() as int, wcet_term());
    lemma_sum_prefix_mono(level, 0, k, wcet_term());
    lemma_sum_take_all(level, wcet_term());
}

/// Job `q` over more work responds no earlier.
proof fn lemma_job_dominated(h1: Seq<Task>, t1: Task, h2: Seq<Task>, t2: Task, q: int)
    requires
        interference_dominated(h1, h2),
        task_dominated(t1, t2),
        periods_positive(h2),
        0 <= q,
        job_response(h1, t1, q) is Ok,
        job_response(h2, t2, q) is Ok,
    ensures
        job_response(h1, t1, q)->Ok_0 <= job_response(h2, t2, q)->Ok_0,
{
    let base1 = job_base(t1, q);
    let base2 = job_base(t2, q);
    vstd::arithmetic::mul::lemma_mul_inequality(t1.wcet_us as int, t2.wcet_us as int, q + 1);
    vstd::arithmetic::mul::lemma_mul_nonnegative(q + 1, t1.wcet_us as int);
    vstd::arithmetic::mul::lemma_mul_is_commutative(q + 1, t1.wcet_us as int);
    vstd::arithmetic::mul::lemma_mul_is_commutative(q + 1, t2.wcet_us as int);
    lemma_solve_settles_on_fixed_point(h2, base2, base2, cap());
    lemma_solve_dominated(h1, base1, base1, h2, base2, base2);
}

/// Sums over two sequences of one length, term by term no larger, are no
/// larger.
pub proof fn lemma_sum_paired_le(
    s1: Seq<Task>,
    s2: Seq<Task>,
    f: spec_fn(Task) -> int,
    g: spec_fn(Task) -> int,
)
    requires
        s1.len() == s2.len(),
        forall|k: int| 0 <= k < s1.len() ==> f(#[trigger] s1[k]) <= g(s2[k]),
    ensures
        sum_of(s1, f) <= sum_of(s2, g),
{
    lemma_sum_pointwise_paired(s1, s2, f, g);
}

} // verus!
