//! What the answer for a task depends on: the task itself, and the
//! execution times, periods and jitters of the tasks above it, as a
//! multiset. Not their order, not their deadlines, not their blocking terms.
use vstd::prelude::*;

use crate::model::{
    analyse, busy_period, disturbed, jitter_term, cap, job_base, job_response, level_utilisation, lemma_sum_remove,
    recurrence, solve, sum_of, util_term, wcet_term, demand_term, windows_fit, worst_response,
};
use crate::task::Task;

verus! {

/// What the tasks above a task contribute to its analysis: execution time,
/// period and jitter.
pub open spec fn profile(t: Task) -> (u64, u64, u64) {
    (t.wcet_us, t.period_us, t.jitter_us)
}

/// The profiles of a sequence of tasks, in order.
pub open spec fn profiles(s: Seq<Task>) -> Seq<(u64, u64, u64)> {
    s.map_values(|t: Task| profile(t))
}

/// Two sequences of tasks hold the same profiles, each as often, in any
/// order.
pub open spec fn same_profiles(s1: Seq<Task>, s2: Seq<Task>) -> bool {
    profiles(s1).to_multiset() == profiles(s2).to_multiset()
}

/// `f` gives equal values on tasks of equal profile.
pub open spec fn term_factors_through_profile(f: spec_fn(Task) -> int) -> bool {
    forall|a: Task, b: Task| #![trigger f(a), f(b)] profile(a) == profile(b) ==> f(a) == f(b)
}

/// `p` holds equally of tasks of equal profile.
pub open spec fn test_factors_through_profile(p: spec_fn(Task) -> bool) -> bool {
    forall|a: Task, b: Task| #![trigger p(a), p(b)] profile(a) == profile(b) ==> p(a) == p(b)
}

/// Pushing a task pushes its profile.
pub proof fn lemma_profiles_push(s: Seq<Task>, t: Task)
    ensures
        profiles(s.push(t)) == profiles(s).push(profile(t)),
        profiles(s.push(t)).to_multiset() == profiles(s).to_multiset().insert(profile(t)),
{
    broadcast use vstd::seq_lib::group_to_multiset_ensures;

    assert(profiles(s.push(t)) =~= profiles(s).push(profile(t)));
}

/// Adding the same task to both keeps two sequences of the same profiles.
pub proof fn lemma_same_profiles_push(s1: Seq<Task>, s2: Seq<Task>, t: Task)
    requires
        same_profiles(s1, s2),
    ensures
        same_profiles(s1.push(t), s2.push(t)),
{
    lemma_profiles_push(s1, t);
    lemma_profiles_push(s2, t);
}

/// A sum whose term depends only on the profile is the same over two
/// sequences of the same profiles.
pub proof fn lemma_sum_same_profiles(s1: Seq<Task>, s2: Seq<Task>, f: spec_fn(Task) -> int)
    requires
        same_profiles(s1, s2),
        term_factors_through_profile(f),
    ensures
        sum_of(s1, f) == sum_of(s2, f),
    decreases s1.len(),
{
    broadcast use vstd::seq_lib::group_to_multiset_ensures;

    if s1.len() == 0 {
        assert(profiles(s1).len() == 0);
        assert(profiles(s2).to_multiset().len() == 0);
        assert(profiles(s2).len() == 0);
        assert(s2.len() == 0);
    } else {
        let x = s1.last();
        let rest = s1.drop_last();
        assert(s1 =~= rest.push(x));
        lemma_profiles_push(rest, x);
        let p = profile(x);
        assert(profiles(s1).to_multiset().count(p) > 0);
        assert(profiles(s2).contains(p));
        let k = choose|k: int| 0 <= k < profiles(s2).len() && profiles(s2)[k] == p;
        assert(profile(s2[k]) == p);
        let r2 = s2.remove(k);
        assert(profiles(r2) =~= profiles(s2).remove(k));
        assert(profiles(r2).to_multiset() =~= profiles(s2).to_multiset().remove(p));
        assert(profiles(rest).to_multiset() =~= profiles(s1).to_multiset().remove(p));
        lemma_sum_same_profiles(rest, r2, f);
        lemma_sum_remove(s2, k, f);
        assert(f(s2[k]) == f(x));
    }
}

/// Every task of `s2` passing a test on profiles means every task of `s1`
/// does, when the two hold the same profiles.
proof fn lemma_all_same_profiles_one_way(s1: Seq<Task>, s2: Seq<Task>, p: spec_fn(Task) -> bool)
    requires
        same_profiles(s1, s2),
        test_factors_through_profile(p),
        forall|k: int| 0 <= k < s2.len() ==> p(#[trigger] s2[k]),
    ensures
        forall|k: int| 0 <= k < s1.len() ==> p(#[trigger] s1[k]),
{
    broadcast use vstd::seq_lib::group_to_multiset_ensures;

    assert forall|k: int| 0 <= k < s1.len() implies p(#[trigger] s1[k]) by {
        let q = profile(s1[k]);
        assert(profiles(s1)[k] == q);
        assert(profiles(s1).contains(q));
        assert(profiles(s1).to_multiset().count(q) > 0);
        assert(profiles(s2).contains(q));
        let j = choose|j: int| 0 <= j < profiles(s2).len() && profiles(s2)[j] == q;
        assert(profile(s2[j]) == q);
        assert(p(s2[j]));
    }
}

/// A test on profiles holds of every task of one of two sequences of the
/// same profiles exactly when it holds of every task of the other.
pub proof fn lemma_all_same_profiles(s1: Seq<Task>, s2: Seq<Task>, p: spec_fn(Task) -> bool)
    requires
        same_profiles(s1, s2),
        test_factors_through_profile(p),
    ensures
        (forall|k: int| 0 <= k < s1.len() ==> p(#[trigger] s1[k])) <==> (forall|k: int|
            0 <= k < s2.len() ==> p(#[trigger] s2[k])),
{
    if forall|k: int| 0 <= k < s2.len() ==> p(#[trigger] s2[k]) {
        lemma_all_same_profiles_one_way(s1, s2, p);
    }
    if forall|k: int| 0 <= k < s1.len() ==> p(#[trigger] s1[k]) {
        lemma_all_same_profiles_one_way(s2, s1, p);
    }
}

/// The recurrence over two sequences of the same profiles is the same.
pub proof fn lemma_recurrence_same_profiles(h1: Seq<Task>, h2: Seq<Task>, base: int, w: int)
    requires
        same_profiles(h1, h2),
    ensures
        recurrence(h1, base, w) == recurrence(h2, base, w),
{
    let fits = |t: Task| w + t.jitter_us <= u64::MAX;
    lemma_all_same_profiles(h1, h2, fits);
    assert(windows_fit(h1, w) == (forall|k: int| 0 <= k < h1.len() ==> fits(#[trigger] h1[k])));
    assert(windows_fit(h2, w) == (forall|k: int| 0 <= k < h2.len() ==> fits(#[trigger] h2[k])));
    lemma_sum_same_profiles(h1, h2, demand_term(w));
}

/// The fixed-point search over two sequences of the same profiles is the
/// same.
pub proof fn lemma_solve_same_profiles(
    h1: Seq<Task>,
    h2: Seq<Task>,
    base: int,
    w: int,
    fuel: nat,
)
    requires
        same_profiles(h1, h2),
    ensures
        solve(h1, base, w, fuel) == solve(h2, base, w, fuel),
    decreases fuel,
{
    lemma_recurrence_same_profiles(h1, h2, base, w);
    if fuel > 0 {
        if let Some(next) = recurrence(h1, base, w) {
            if next != w {
                lemma_solve_same_profiles(h1, h2, base, next, (fuel - 1) as nat);
            }
        }
    }
}

/// The worst job response below two sequences of the same profiles is the
/// same.
proof fn lemma_worst_same_profiles(h1: Seq<Task>, h2: Seq<Task>, t: Task, n: int)
    requires
        same_profiles(h1, h2),
    ensures
        worst_response(h1, t, n) == worst_response(h2, t, n),
    decreases n,
{
    if n > 0 {
        lemma_worst_same_profiles(h1, h2, t, n - 1);
        let base = job_base(t, n - 1);
        lemma_solve_same_profiles(h1, h2, base, base, cap());
        assert(job_response(h1, t, n - 1) == job_response(h2, t, n - 1));
    }
}

/// The answer for a task depends on the tasks above it only through the
/// multiset of their execution times, periods and jitters: reordering them,
/// or changing their deadlines or blocking terms, changes nothing.
pub proof fn lemma_analyse_same_profiles(h1: Seq<Task>, h2: Seq<Task>, t: Task)
    requires
        same_profiles(h1, h2),
    ensures
        analyse(h1, t) == analyse(h2, t),
{
    let l1 = h1.push(t);
    let l2 = h2.push(t);
    lemma_same_profiles_push(h1, h2, t);
    // Utilisation of the level.
    let some_util = |x: Task| x.utilisation_spec() is Some;
    lemma_all_same_profiles(l1, l2, some_util);
    assert((forall|j: int| 0 <= j < l1.len() ==> (#[trigger] l1[j]).utilisation_spec() is Some)
        == (forall|k: int| 0 <= k < l1.len() ==> some_util(#[trigger] l1[k])));
    assert((forall|j: int| 0 <= j < l2.len() ==> (#[trigger] l2[j]).utilisation_spec() is Some)
        == (forall|k: int| 0 <= k < l2.len() ==> some_util(#[trigger] l2[k])));
    lemma_sum_same_profiles(l1, l2, util_term());
    assert(level_utilisation(l1) == level_utilisation(l2));
    // A disturbance of the level.
    lemma_sum_same_profiles(l1, l2, jitter_term());
    assert(disturbed(h1, t) == disturbed(h2, t));
    // The busy period.
    lemma_sum_same_profiles(l1, l2, wcet_term());
    let seed = t.blocking_us + sum_of(l1, wcet_term());
    lemma_solve_same_profiles(l1, l2, t.blocking_us as int, seed, cap());
    assert(busy_period(h1, t) == busy_period(h2, t));
    // Every job.
    if let Ok(busy) = busy_period(h1, t) {
        let n = crate::model::jobs_in_busy_period(t, busy);
        lemma_worst_same_profiles(h1, h2, t, n);
    }
}

/// Two tasks that differ at most in their names.
pub open spec fn same_but_name(t1: Task, t2: Task) -> bool {
    t2 == Task { name: t2.name, ..t1 }
}

/// The worst job response of two tasks that differ only in name is the same.
proof fn lemma_worst_ignores_name(h: Seq<Task>, t1: Task, t2: Task, n: int)
    requires
        same_but_name(t1, t2),
    ensures
        worst_response(h, t1, n) == worst_response(h, t2, n),
    decreases n,
{
    if n > 0 {
        lemma_worst_ignores_name(h, t1, t2, n - 1);
        assert(job_base(t1, n - 1) == job_base(t2, n - 1));
        assert(job_response(h, t1, n - 1) == job_response(h, t2, n - 1));
    }
}

/// A task's name never reaches its answer.
pub proof fn lemma_analyse_ignores_name(h: Seq<Task>, t1: Task, t2: Task)
    requires
        same_but_name(t1, t2),
    ensures
        analyse(h, t1) == analyse(h, t2),
{
    let l1 = h.push(t1);
    let l2 = h.push(t2);
    assert(profiles(l1) =~= profiles(l2)) by {
        assert forall|k: int| 0 <= k < l1.len() implies profiles(l1)[k] == profiles(l2)[k] by {
            if k < h.len() {
                assert(l1[k] == l2[k]);
            }
        }
    }
    assert(same_profiles(l1, l2));
    let some_util = |x: Task| x.utilisation_spec() is Some;
    lemma_all_same_profiles(l1, l2, some_util);
    assert((forall|j: int| 0 <= j < l1.len() ==> (#[trigger] l1[j]).utilisation_spec() is Some)
        == (forall|k: int| 0 <= k < l1.len() ==> some_util(#[trigger] l1[k])));
    assert((forall|j: int| 0 <= j < l2.len() ==> (#[trigger] l2[j]).utilisation_spec() is Some)
        == (forall|k: int| 0 <= k < l2.len() ==> some_util(#[trigger] l2[k])));
    lemma_sum_same_profiles(l1, l2, util_term());
    assert(level_utilisation(l1) == level_utilisation(l2));
    lemma_sum_same_profiles(l1, l2, jitter_term());
    assert(disturbed(h, t1) == disturbed(h, t2));
    lemma_sum_same_profiles(l1, l2, wcet_term());
    let seed = t1.blocking_us + sum_of(l1, wcet_term());
    lemma_solve_same_profiles(l1, l2, t1.blocking_us as int, seed, cap());
    assert(busy_period(h, t1) == busy_period(h, t2));
    if let Ok(busy) = busy_period(h, t1) {
        let n = crate::model::jobs_in_busy_period(t1, busy);
        assert(n == crate::model::jobs_in_busy_period(t2, busy));
        lemma_worst_ignores_name(h, t1, t2, n);
    }
}

} // verus!
