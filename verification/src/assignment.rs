//! The theory behind Audsley's assignment: what each level of the order it
//! returns was checked against, and why that is the set the level faces once
//! the order is applied.
use vstd::prelude::*;

use crate::model::{
    analyse, audsley, audsley_limit, bottom_answer, first_fit, first_limit, fits_at_bottom, level_utilisation, others_above, response_spec,
    schedulable, sum_of, trial_set, util_term, valid_tasks,
};
use crate::monotone::{interference_dominated, lemma_answer_parts, lemma_response_monotone};
use crate::response::{AnalysisFailure, Response};
use crate::symmetry::{lemma_analyse_same_profiles, profile, profiles, same_profiles};
use crate::task::Task;

verus! {

/// The indices not `taken`, other than `c`, among the first `m`, increasing.
pub open spec fn free_above(taken: Seq<bool>, c: int, m: int) -> Seq<int>
    decreases m,
{
    if m <= 0 {
        Seq::empty()
    } else {
        let prev = free_above(taken, c, m - 1);
        if !taken[m - 1] && m - 1 != c {
            prev.push(m - 1)
        } else {
            prev
        }
    }
}

/// `taken`, with every index of `idx` taken as well.
pub open spec fn marked(taken: Seq<bool>, idx: Seq<int>) -> Seq<bool> {
    Seq::new(taken.len(), |j: int| taken[j] || idx.contains(j))
}

/// The tasks of `ts` at the indices of `idx`, in that order.
pub open spec fn pick(ts: Seq<Task>, idx: Seq<int>) -> Seq<Task> {
    idx.map_values(|j: int| ts[j])
}

/// The tasks above a candidate are the tasks at the free indices other
/// than the candidate, in index order.
pub proof fn lemma_others_above_picks(ts: Seq<Task>, taken: Seq<bool>, c: int, m: int)
    ensures
        others_above(ts, taken, c, m) == pick(ts, free_above(taken, c, m)),
    decreases m,
{
    if m > 0 {
        lemma_others_above_picks(ts, taken, c, m - 1);
        assert(pick(ts, free_above(taken, c, m - 1).push(m - 1)) =~= pick(
            ts,
            free_above(taken, c, m - 1),
        ).push(ts[m - 1]));
    } else {
        assert(pick(ts, Seq::<int>::empty()) =~= Seq::<Task>::empty());
    }
}

/// The free indices other than the candidate are listed once each, and are
/// exactly the free indices other than the candidate below `m`.
pub proof fn lemma_free_above_facts(taken: Seq<bool>, c: int, m: int)
    requires
        0 <= m <= taken.len(),
    ensures
        free_above(taken, c, m).no_duplicates(),
        forall|x: int|
            #[trigger] free_above(taken, c, m).contains(x) <==> (0 <= x < m && !taken[x] && x
                != c),
    decreases m,
{
    if m > 0 {
        lemma_free_above_facts(taken, c, m - 1);
        let prev = free_above(taken, c, m - 1);
        let cur = free_above(taken, c, m);
        if !taken[m - 1] && m - 1 != c {
            assert forall|x: int| cur.contains(x) <==> (0 <= x < m && !taken[x] && x != c) by {
                if cur.contains(x) {
                    let k = choose|k: int| 0 <= k < cur.len() && cur[k] == x;
                    if k < prev.len() {
                        assert(prev[k] == x);
                        assert(prev.contains(x));
                    }
                }
                if 0 <= x < m && !taken[x] && x != c {
                    if x < m - 1 {
                        assert(prev.contains(x));
                        let k = choose|k: int| 0 <= k < prev.len() && prev[k] == x;
                        assert(cur[k] == x);
                    } else {
                        assert(cur[prev.len() as int] == x);
                    }
                }
            }
            assert forall|i: int, j: int|
                0 <= i < cur.len() && 0 <= j < cur.len() && i != j implies cur[i] != cur[j] by {
                if i < prev.len() && j < prev.len() {
                } else if i < prev.len() {
                    assert(prev.contains(cur[i]));
                } else {
                    assert(prev.contains(cur[j]));
                }
            }
        } else {
            assert(cur == prev);
            assert(taken[m - 1] || m - 1 == c);
            assert forall|x: int| cur.contains(x) <==> (0 <= x < m && !taken[x] && x != c) by {
                assert(prev.contains(x) <==> (0 <= x < m - 1 && !taken[x] && x != c));
            }
        }
    }
}

/// Two sequences without repeats holding the same elements hold them as the
/// same multiset.
pub proof fn lemma_no_dup_same_elements<A>(a: Seq<A>, b: Seq<A>)
    requires
        a.no_duplicates(),
        b.no_duplicates(),
        forall|x: A| a.contains(x) <==> b.contains(x),
    ensures
        a.to_multiset() == b.to_multiset(),
{
    broadcast use vstd::seq_lib::group_to_multiset_ensures;

    a.lemma_multiset_has_no_duplicates();
    b.lemma_multiset_has_no_duplicates();
    assert forall|x: A| a.to_multiset().count(x) == b.to_multiset().count(x) by {
        if a.contains(x) {
            assert(a.to_multiset().contains(x));
            assert(b.to_multiset().contains(x));
        }
    }
    assert(a.to_multiset() =~= b.to_multiset());
}

/// Mapping a function over two sequences with the same multiset of elements
/// gives two sequences with the same multiset of elements.
pub proof fn lemma_map_same_multiset<A, B>(s1: Seq<A>, s2: Seq<A>, g: spec_fn(A) -> B)
    requires
        s1.to_multiset() == s2.to_multiset(),
    ensures
        s1.map_values(g).to_multiset() == s2.map_values(g).to_multiset(),
    decreases s1.len(),
{
    broadcast use vstd::seq_lib::group_to_multiset_ensures;

    if s1.len() == 0 {
        assert(s2.to_multiset().len() == 0);
        assert(s2.len() == 0);
        assert(s1.map_values(g) =~= s2.map_values(g));
    } else {
        let x = s1.last();
        let rest = s1.drop_last();
        assert(s1 =~= rest.push(x));
        assert(s1.to_multiset().count(x) > 0);
        assert(s2.contains(x));
        let k = choose|k: int| 0 <= k < s2.len() && s2[k] == x;
        let r2 = s2.remove(k);
        assert(r2.to_multiset() =~= s2.to_multiset().remove(x));
        assert(rest.to_multiset() =~= s1.to_multiset().remove(x));
        lemma_map_same_multiset(rest, r2, g);
        assert(s1.map_values(g) =~= rest.map_values(g).push(g(x)));
        assert(r2.map_values(g) =~= s2.map_values(g).remove(k));
        assert(s2.map_values(g)[k] == g(x));
        assert(s1.map_values(g).to_multiset() =~= rest.map_values(g).to_multiset().insert(g(x)));
        assert(r2.map_values(g).to_multiset() =~= s2.map_values(g).to_multiset().remove(g(x)));
        assert(s2.map_values(g).to_multiset().count(g(x)) > 0);
    }
}

/// Tasks picked at index sequences holding the same indices have the same
/// profiles.
pub proof fn lemma_pick_same_profiles(ts: Seq<Task>, a: Seq<int>, b: Seq<int>)
    requires
        a.to_multiset() == b.to_multiset(),
        forall|k: int| 0 <= k < a.len() ==> 0 <= #[trigger] a[k] < ts.len(),
        forall|k: int| 0 <= k < b.len() ==> 0 <= #[trigger] b[k] < ts.len(),
    ensures
        same_profiles(pick(ts, a), pick(ts, b)),
{
    let g = |j: int| profile(ts[j]);
    lemma_map_same_multiset(a, b, g);
    assert(profiles(pick(ts, a)) =~= a.map_values(g));
    assert(profiles(pick(ts, b)) =~= b.map_values(g));
}

/// What Audsley's assignment returns from `k` free levels: `k` distinct
/// free indices, each of which met its deadline at its level with every
/// index above it in the order still free above it.
pub proof fn lemma_audsley_facts(ts: Seq<Task>, taken: Seq<bool>, k: nat)
    requires
        taken.len() == ts.len(),
        audsley(ts, taken, k) is Some,
    ensures
        ({
            let o = audsley(ts, taken, k)->Some_0;
            &&& o.len() == k
            &&& o.no_duplicates()
            &&& forall|m: int| 0 <= m < k ==> 0 <= #[trigger] o[m] < ts.len() && !taken[o[m]]
            &&& forall|m: int|
                0 <= m < k ==> fits_at_bottom(
                    ts,
                    marked(taken, o.subrange(m + 1, k as int)),
                    #[trigger] o[m],
                )
        }),
    decreases k,
{
    if k > 0 {
        let c = first_fit(ts, taken, 0)->Some_0;
        lemma_first_fit_found(ts, taken, 0);
        let taken2 = taken.update(c, true);
        lemma_audsley_facts(ts, taken2, (k - 1) as nat);
        let upper = audsley(ts, taken2, (k - 1) as nat)->Some_0;
        let o = upper.push(c);
        assert(audsley(ts, taken, k)->Some_0 == o);
        assert forall|m: int| 0 <= m < k implies 0 <= #[trigger] o[m] < ts.len() && !taken[o[m]] by {
            if m < k - 1 {
                assert(o[m] == upper[m]);
                assert(!taken2[upper[m]]);
            }
        }
        assert forall|i: int, j: int|
            0 <= i < o.len() && 0 <= j < o.len() && i != j implies o[i] != o[j] by {
            if i < k - 1 && j < k - 1 {
            } else if i < k - 1 {
                assert(!taken2[upper[i]]);
            } else {
                assert(!taken2[upper[j]]);
            }
        }
        assert forall|m: int| 0 <= m < k implies fits_at_bottom(
            ts,
            marked(taken, o.subrange(m + 1, k as int)),
            #[trigger] o[m],
        ) by {
            if m == k - 1 {
                assert(o.subrange(m + 1, k as int) =~= Seq::<int>::empty());
                assert(marked(taken, o.subrange(m + 1, k as int)) =~= taken);
            } else {
                assert(o[m] == upper[m]);
                let a = marked(taken2, upper.subrange(m + 1, k - 1));
                let b = marked(taken, o.subrange(m + 1, k as int));
                let us = upper.subrange(m + 1, k - 1);
                let os = o.subrange(m + 1, k as int);
                assert forall|j: int| 0 <= j < a.len() implies a[j] == b[j] by {
                    if us.contains(j) {
                        let i = choose|i: int| 0 <= i < us.len() && us[i] == j;
                        assert(os[i] == j);
                    }
                    if os.contains(j) {
                        let i = choose|i: int| 0 <= i < os.len() && os[i] == j;
                        if i < us.len() {
                            assert(us[i] == j);
                        } else {
                            assert(j == c);
                        }
                    }
                    if j == c {
                        assert(os[k - 1 - (m + 1)] == c);
                    }
                }
                assert(a =~= b);
            }
        }
    }
}

/// A search that finds a candidate finds a free one that fits.
pub proof fn lemma_first_fit_found(ts: Seq<Task>, taken: Seq<bool>, from: int)
    requires
        first_fit(ts, taken, from) is Some,
    ensures
        ({
            let c = first_fit(ts, taken, from)->Some_0;
            &&& 0 <= from <= c < ts.len()
            &&& !taken[c]
            &&& fits_at_bottom(ts, taken, c)
        }),
    decreases ts.len() - from,
{
    if 0 <= from < ts.len() && !(!taken[from] && fits_at_bottom(ts, taken, from)) {
        lemma_first_fit_found(ts, taken, from + 1);
    }
}

/// `idx` names tasks of a set of `n`, each at most once.
pub open spec fn selection(idx: Seq<int>, n: int) -> bool {
    &&& idx.no_duplicates()
    &&& forall|k: int| 0 <= k < idx.len() ==> 0 <= #[trigger] idx[k] < n
}

/// A refusal that says the implementation stopped rather than what the task
/// set is: an iteration cap, the busy-period cap, or overflow.
pub open spec fn is_limit(r: Response) -> bool {
    ||| r == Response::Refused(AnalysisFailure::IterationLimit)
    ||| r == Response::Refused(AnalysisFailure::BusyPeriodLimit)
    ||| r == Response::Refused(AnalysisFailure::Overflow)
}

/// Every task of `ts`, analysed below any selection of the others, gets an
/// answer about the task set rather than a limit of the implementation: the
/// analysis is exact over every arrangement of `ts`.
#[verifier::opaque]
pub open spec fn answers_without_limits(ts: Seq<Task>) -> bool {
    forall|idx: Seq<int>, c: int|
        selection(idx, ts.len() as int) && 0 <= c < ts.len() && !idx.contains(c) ==> !is_limit(
            #[trigger] analyse(pick(ts, idx), ts[c]),
        )
}

/// A selection of all `n` indices names every one of them.
pub proof fn lemma_full_selection_covers(p: Seq<int>, n: int)
    requires
        selection(p, n),
        p.len() == n,
    ensures
        forall|j: int| 0 <= j < n ==> #[trigger] p.contains(j),
{
    let range = vstd::set_lib::set_int_range(0, n);
    vstd::set_lib::lemma_int_range(0, n);
    p.unique_seq_to_set();
    assert(p.to_set().subset_of(range)) by {
        assert forall|x: int| p.to_set().contains(x) implies range.contains(x) by {
            let m = choose|m: int| 0 <= m < p.len() && p[m] == x;
        }
    }
    vstd::set_lib::lemma_len_subset(p.to_set(), range);
    vstd::set_lib::lemma_subset_equality(p.to_set(), range);
    assert forall|j: int| 0 <= j < n implies #[trigger] p.contains(j) by {
        assert(range.contains(j));
        assert(p.to_set().contains(j));
    }
}

/// A task that meets its deadline below some tasks still meets it with one of
/// them taken away, provided the analysis answers without a limit there.
pub proof fn lemma_fewer_above_still_fits(ts: Seq<Task>, idx: Seq<int>, j: int, t: Task)
    requires
        valid_tasks(ts),
        admissible_task(t),
        forall|k: int| 0 <= k < idx.len() ==> 0 <= #[trigger] idx[k] < ts.len(),
        0 <= j < idx.len(),
        analyse(pick(ts, idx), t) is Bounded,
        !is_limit(analyse(pick(ts, idx.remove(j)), t)),
    ensures
        analyse(pick(ts, idx.remove(j)), t) is Bounded,
{
    broadcast use vstd::seq_lib::group_to_multiset_ensures;

    let h = pick(ts, idx);
    let h1 = pick(ts, idx.remove(j));
    assert(h1 =~= h.remove(j));
    let x = h[j];
    let h2 = h1.push(x);
    // Moving the removed task to the bottom of the tasks above changes nothing.
    lemma_profiles_remove_push(h, j);
    lemma_analyse_same_profiles(h2, h, t);
    assert(analyse(h2, t) == analyse(h, t));
    // The level without it is no more utilised.
    let l1 = h1.push(t);
    let l2 = h2.push(t);
    assert(l2 =~= h1.push(x).push(t));
    assert forall|k: int| 0 <= k < h2.len() implies (#[trigger] h2[k]).period_us > 0 by {
        if k < h1.len() {
            assert(h2[k] == h1[k]);
            if k < j {
                assert(h1[k] == ts[idx[k]]);
            } else {
                assert(h1[k] == ts[idx[k + 1]]);
            }
        } else {
            assert(h2[k] == ts[idx[j]]);
        }
    }
    lemma_level_utilisation_without(h1, x, t);
    lemma_analyse_outcomes(h1, t);
    assert(analyse(h2, t) is Bounded);
    assert(level_utilisation(l2) matches Some(u2) && u2 <= crate::FULL_UTILISATION_PPM);
    assert(level_utilisation(l1) matches Some(u1) && u1 <= crate::FULL_UTILISATION_PPM);
    if let Ok(busy) = crate::model::busy_period(h1, t) {
        crate::model::lemma_job_refusals(h1, t, crate::model::jobs_in_busy_period(t, busy));
    } else {
        crate::model::lemma_job_refusals(h1, t, 0);
    }
    if analyse(h1, t) == Response::Refused(AnalysisFailure::NonConvergent) {
        // A disturbance of the smaller level disturbs the larger one too.
        let jt = crate::model::jitter_term();
        assert(l1.drop_last() =~= h1);
        assert(l2.drop_last() =~= h1.push(x));
        assert(h1.push(x).drop_last() =~= h1);
        assert(sum_of(l1, jt) == sum_of(h1, jt) + jt(t));
        assert(l2.last() == t);
        assert(h1.push(x).last() == x);
        assert(sum_of(h1.push(x), jt) == sum_of(h1, jt) + jt(x));
        assert(sum_of(l2, jt) == sum_of(h1.push(x), jt) + jt(t));
        assert(crate::model::disturbed(h2, t));
        assert(false);
    }
    assert(analyse(h1, t).response_time_spec() is Some);
    assert(interference_dominated(h1, h2)) by {
        assert forall|k: int| 0 <= k < h1.len() implies (#[trigger] h1[k]).period_us
            == h2[k].period_us && h1[k].wcet_us <= h2[k].wcet_us && h1[k].jitter_us
            <= h2[k].jitter_us by {
            assert(h2[k] == h1[k]);
        }
    }
    lemma_response_monotone(h1, t, h2, t);
    lemma_answer_parts(h1, t);
    lemma_answer_parts(h2, t);
}

/// A task the set can hold.
pub open spec fn admissible_task(t: Task) -> bool {
    crate::model::admissible(t)
}

/// Taking the task at `j` out and putting it back at the end keeps the
/// profiles.
proof fn lemma_profiles_remove_push(h: Seq<Task>, j: int)
    requires
        0 <= j < h.len(),
    ensures
        same_profiles(h.remove(j).push(h[j]), h),
{
    broadcast use vstd::seq_lib::group_to_multiset_ensures;

    crate::symmetry::lemma_profiles_push(h.remove(j), h[j]);
    assert(profiles(h.remove(j)) =~= profiles(h).remove(j));
    assert(profiles(h)[j] == profile(h[j]));
    assert(profiles(h).to_multiset().count(profile(h[j])) > 0);
    assert(profiles(h.remove(j).push(h[j])).to_multiset() =~= profiles(h).to_multiset());
}

/// A level without one of the tasks above is no more utilised, and its
/// utilisation is representable whenever the fuller level's is.
proof fn lemma_level_utilisation_without(h1: Seq<Task>, x: Task, t: Task)
    requires
        level_utilisation(h1.push(x).push(t)) is Some,
        forall|k: int| 0 <= k < h1.push(x).len() ==> (#[trigger] h1.push(x)[k]).period_us > 0,
        t.period_us > 0,
    ensures
        level_utilisation(h1.push(t)) is Some,
        level_utilisation(h1.push(t))->Some_0 <= level_utilisation(h1.push(x).push(t))->Some_0,
{
    let l1 = h1.push(t);
    let l2 = h1.push(x).push(t);
    assert(l1.drop_last() =~= h1);
    assert(l2.drop_last() =~= h1.push(x));
    assert(h1.push(x).drop_last() =~= h1);
    assert(x.period_us > 0) by {
        assert(h1.push(x)[h1.len() as int] == x);
    }
    vstd::arithmetic::div_mod::lemma_div_pos_is_pos(
        x.wcet_us * crate::FULL_UTILISATION_PPM,
        x.period_us as int,
    );
    assert(l2.last() == t);
    assert(h1.push(x).last() == x);
    assert forall|k: int| 0 <= k < h1.push(x).len() implies util_term()(#[trigger] h1.push(x)[k]) >= 0 by {
        let y = h1.push(x)[k];
        vstd::arithmetic::div_mod::lemma_div_pos_is_pos(
            y.wcet_us * crate::FULL_UTILISATION_PPM,
            y.period_us as int,
        );
    }
    crate::model::lemma_sum_prefix_mono(h1.push(x), 0, h1.len() as int, util_term());
    assert(h1.push(x).take(h1.len() as int) =~= h1);
    assert(h1.push(x).take(0) =~= Seq::<Task>::empty());
    assert(l1.last() == t);
    assert(sum_of(l1, util_term()) == sum_of(h1, util_term()) + util_term()(t));
    assert(sum_of(l2, util_term()) == sum_of(h1.push(x), util_term()) + util_term()(t));
    assert(sum_of(h1.push(x), util_term()) == sum_of(h1, util_term()) + util_term()(x));
    assert forall|j: int| 0 <= j < l1.len() implies (#[trigger] l1[j]).utilisation_spec() is Some by {
        if j < h1.len() {
            assert(l1[j] == l2[j]);
            assert(l2[j].utilisation_spec() is Some);
        } else {
            assert(l1[j] == l2[l2.len() - 1]);
            assert(l2[l2.len() - 1].utilisation_spec() is Some);
        }
    }
}

/// What an analysis can answer: a bound, a miss, an impossibility, or a
/// limit of the implementation.
pub proof fn lemma_analyse_outcomes(h: Seq<Task>, t: Task)
    ensures
        analyse(h, t) is Bounded || analyse(h, t) matches Response::Refused(
            AnalysisFailure::ExceedsDeadline(_),
        ) || analyse(h, t) == Response::Refused(AnalysisFailure::NonConvergent) || is_limit(
            analyse(h, t),
        ),
        analyse(h, t) == Response::Refused(AnalysisFailure::NonConvergent) ==> level_utilisation(
            h.push(t),
        ) is Some && (level_utilisation(h.push(t))->Some_0 > crate::FULL_UTILISATION_PPM || (
        level_utilisation(h.push(t))->Some_0 == crate::FULL_UTILISATION_PPM
            && crate::model::disturbed(h, t))),
{
    if let Ok(busy) = crate::model::busy_period(h, t) {
        crate::model::lemma_job_refusals(h, t, crate::model::jobs_in_busy_period(t, busy));
    } else {
        crate::model::lemma_job_refusals(h, t, 0);
    }
}

/// While there is an order of the free tasks in which each meets its deadline
/// below the ones before it, Audsley's assignment of them succeeds.
pub proof fn lemma_audsley_succeeds(ts: Seq<Task>, taken: Seq<bool>, u: Seq<int>)
    requires
        valid_tasks(ts),
        answers_without_limits(ts),
        taken.len() == ts.len(),
        u.no_duplicates(),
        forall|x: int| #[trigger] u.contains(x) <==> (0 <= x < ts.len() && !taken[x]),
        forall|m: int|
            0 <= m < u.len() ==> analyse(pick(ts, u.take(m)), ts[#[trigger] u[m]]) is Bounded,
    ensures
        audsley(ts, taken, u.len()) is Some,
    decreases u.len(),
{
    if u.len() > 0 {
        let k = u.len() as int;
        let n = ts.len() as int;
        assert forall|m: int| 0 <= m < k implies 0 <= #[trigger] u[m] < n by {
            assert(u.contains(u[m]));
        }
        // The last task of that order fits at the lowest free level.
        let cstar = u[k - 1];
        assert(u.contains(cstar));
        lemma_fits_at_bottom_from_order(ts, taken, u);
        lemma_first_fit_reaches(ts, taken, 0, cstar);
        let c = first_fit(ts, taken, 0)->Some_0;
        lemma_first_fit_found(ts, taken, 0);
        assert(u.contains(c));
        let pos = choose|pos: int| 0 <= pos < u.len() && u[pos] == c;
        let u2 = u.remove(pos);
        let taken2 = taken.update(c, true);
        // The order without the chosen task still works for the rest.
        lemma_removed_enumerates(u, taken, pos, n);
        assert forall|m: int| 0 <= m < u2.len() implies analyse(
            pick(ts, u2.take(m)),
            ts[#[trigger] u2[m]],
        ) is Bounded by {
            lemma_order_without_one(ts, u, pos, m);
        }
        lemma_audsley_succeeds(ts, taken2, u2);
    }
}

/// The last task of such an order fits at the lowest free level.
proof fn lemma_fits_at_bottom_from_order(ts: Seq<Task>, taken: Seq<bool>, u: Seq<int>)
    requires
        taken.len() == ts.len(),
        u.len() >= 1,
        u.no_duplicates(),
        forall|x: int| #[trigger] u.contains(x) <==> (0 <= x < ts.len() && !taken[x]),
        analyse(pick(ts, u.take(u.len() - 1)), ts[u[u.len() - 1]]) is Bounded,
    ensures
        fits_at_bottom(ts, taken, u[u.len() - 1]),
{
    let n = ts.len() as int;
    let k = u.len() as int;
    let c = u[k - 1];
    assert(u.contains(c));
    let free = free_above(taken, c, n);
    lemma_free_above_facts(taken, c, n);
    let above = u.take(k - 1);
    assert forall|x: int| above.contains(x) <==> free.contains(x) by {
        if above.contains(x) {
            let i = choose|i: int| 0 <= i < above.len() && above[i] == x;
            assert(u[i] == x);
            assert(u.contains(x));
        }
        if free.contains(x) {
            assert(u.contains(x));
            let i = choose|i: int| 0 <= i < u.len() && u[i] == x;
            assert(i != k - 1);
            assert(above[i] == x);
        }
    }
    assert(above.no_duplicates()) by {
        assert forall|a: int, b: int| 0 <= a < above.len() && 0 <= b < above.len() && a != b implies above[a] != above[b] by {
            assert(above[a] == u[a]);
            assert(above[b] == u[b]);
        }
    }
    lemma_no_dup_same_elements(above, free);
    assert forall|i: int| 0 <= i < above.len() implies 0 <= #[trigger] above[i] < n by {
        assert(above.contains(above[i]));
        assert(free.contains(above[i]));
    }
    assert forall|i: int| 0 <= i < free.len() implies 0 <= #[trigger] free[i] < n by {
        assert(free.contains(free[i]));
    }
    lemma_pick_same_profiles(ts, above, free);
    lemma_analyse_same_profiles(pick(ts, above), pick(ts, free), ts[c]);
    lemma_others_above_picks(ts, taken, c, n);
    let trial = trial_set(ts, taken, c);
    assert(trial.take(trial.len() - 1) =~= others_above(ts, taken, c, n));
}

/// A search that passes a free candidate which fits finds something.
proof fn lemma_first_fit_reaches(ts: Seq<Task>, taken: Seq<bool>, from: int, c: int)
    requires
        0 <= from <= c < ts.len(),
        !taken[c],
        fits_at_bottom(ts, taken, c),
    ensures
        first_fit(ts, taken, from) is Some,
    decreases c - from,
{
    if from < c {
        if !(!taken[from] && fits_at_bottom(ts, taken, from)) {
            lemma_first_fit_reaches(ts, taken, from + 1, c);
        }
    }
}

/// Taking one task out of an order in which each task meets its deadline
/// below the ones before it leaves such an order.
#[verifier::spinoff_prover]
#[verifier::rlimit(40)]
proof fn lemma_order_without_one(ts: Seq<Task>, u: Seq<int>, pos: int, m: int)
    requires
        valid_tasks(ts),
        answers_without_limits(ts),
        u.no_duplicates(),
        forall|k: int| 0 <= k < u.len() ==> 0 <= #[trigger] u[k] < ts.len(),
        forall|k: int|
            0 <= k < u.len() ==> analyse(pick(ts, u.take(k)), ts[#[trigger] u[k]]) is Bounded,
        0 <= pos < u.len(),
        0 <= m < u.len() - 1,
    ensures
        analyse(pick(ts, u.remove(pos).take(m)), ts[u.remove(pos)[m]]) is Bounded,
{
    let n = ts.len() as int;
    let u2 = u.remove(pos);
    if m < pos {
        assert(u2.take(m) =~= u.take(m));
        assert(u2[m] == u[m]);
    } else {
        assert(u2[m] == u[m + 1]);
        assert(u2.take(m) =~= u.take(m + 1).remove(pos));
        let above = u2.take(m);
        assert(selection(above, n)) by {
            assert forall|a: int, b: int|
                0 <= a < above.len() && 0 <= b < above.len() && a != b implies above[a]
                != above[b] by {
                assert(above[a] == u2[a]);
                assert(above[b] == u2[b]);
                if a < pos {
                    assert(u2[a] == u[a]);
                } else {
                    assert(u2[a] == u[a + 1]);
                }
                if b < pos {
                    assert(u2[b] == u[b]);
                } else {
                    assert(u2[b] == u[b + 1]);
                }
            }
            assert forall|a: int| 0 <= a < above.len() implies 0 <= #[trigger] above[a] < n by {
                assert(above[a] == u2[a]);
                if a < pos {
                    assert(u2[a] == u[a]);
                } else {
                    assert(u2[a] == u[a + 1]);
                }
            }
        }
        assert(!above.contains(u2[m])) by {
            if above.contains(u2[m]) {
                let i = choose|i: int| 0 <= i < above.len() && above[i] == u2[m];
                assert(above[i] == u2[i]);
                if i < pos {
                    assert(u2[i] == u[i]);
                } else {
                    assert(u2[i] == u[i + 1]);
                }
            }
        }
        assert(0 <= u2[m] < n);
        reveal(answers_without_limits);
        assert(!is_limit(analyse(pick(ts, above), ts[u2[m]])));
        assert forall|a: int| 0 <= a < u.take(m + 1).len() implies 0 <= #[trigger] u.take(
            m + 1,
        )[a] < n by {
            assert(u.take(m + 1)[a] == u[a]);
        }
        assert(analyse(pick(ts, u.take(m + 1)), ts[u[m + 1]]) is Bounded);
        lemma_fewer_above_still_fits(ts, u.take(m + 1), pos, ts[u[m + 1]]);
    }
}

/// Taking a free index out of an enumeration of the free indices, and
/// marking it taken, leaves an enumeration of the free indices.
proof fn lemma_removed_enumerates(u: Seq<int>, taken: Seq<bool>, pos: int, n: int)
    requires
        u.no_duplicates(),
        0 <= pos < u.len(),
        taken.len() == n,
        forall|x: int| #[trigger] u.contains(x) <==> (0 <= x < n && !taken[x]),
    ensures
        u.remove(pos).no_duplicates(),
        forall|x: int| #[trigger] u.remove(pos).contains(x) <==> (0 <= x < n && !taken.update(
            u[pos],
            true,
        )[x]),
{
    let u2 = u.remove(pos);
    let c = u[pos];
    assert(u.contains(c));
    let taken2 = taken.update(c, true);
    assert forall|x: int| #[trigger] u2.contains(x) <==> (0 <= x < n && !taken2[x]) by {
        if u2.contains(x) {
            let i = choose|i: int| 0 <= i < u2.len() && u2[i] == x;
            if i < pos {
                assert(u[i] == x);
            } else {
                assert(u[i + 1] == x);
            }
            assert(u.contains(x));
        }
        if 0 <= x < n && !taken2[x] {
            assert(u.contains(x));
            let i = choose|i: int| 0 <= i < u.len() && u[i] == x;
            if i < pos {
                assert(u2[i] == x);
            } else {
                assert(i != pos);
                assert(u2[i - 1] == x);
            }
        }
    }
    assert forall|a: int, b: int| 0 <= a < u2.len() && 0 <= b < u2.len() && a != b implies u2[a]
        != u2[b] by {
        if a < pos {
            assert(u2[a] == u[a]);
        } else {
            assert(u2[a] == u[a + 1]);
        }
        if b < pos {
            assert(u2[b] == u[b]);
        } else {
            assert(u2[b] == u[b + 1]);
        }
    }
}

/// What the first refused candidate by a limit carries is a limit, never a
/// finding about the set.
pub proof fn lemma_first_limit_is_a_limit(ts: Seq<Task>, taken: Seq<bool>, from: int)
    ensures
        first_limit(ts, taken, from) matches Some(f) ==> !(f is ExceedsDeadline) && !(
        f is NonConvergent),
    decreases ts.len() - from,
{
    if 0 <= from < ts.len() {
        lemma_first_limit_is_a_limit(ts, taken, from + 1);
    }
}

/// Where Audsley's assignment stops on a limit, the limit it names is one.
pub proof fn lemma_audsley_limit_is_a_limit(ts: Seq<Task>, taken: Seq<bool>, k: nat)
    ensures
        audsley_limit(ts, taken, k) matches Some(f) ==> !(f is ExceedsDeadline) && !(
        f is NonConvergent),
    decreases k,
{
    if k > 0 {
        match first_fit(ts, taken, 0) {
            None => lemma_first_limit_is_a_limit(ts, taken, 0),
            Some(c) => lemma_audsley_limit_is_a_limit(ts, taken.update(c, true), (k - 1) as nat),
        }
    }
}

/// How many tasks are still free.
pub open spec fn free_count(taken: Seq<bool>) -> nat
    decreases taken.len(),
{
    if taken.len() == 0 {
        0
    } else {
        free_count(taken.drop_last()) + if taken.last() {
            0nat
        } else {
            1nat
        }
    }
}

/// Marking a free task taken leaves one fewer free.
proof fn lemma_free_count_take(taken: Seq<bool>, c: int)
    requires
        0 <= c < taken.len(),
        !taken[c],
    ensures
        free_count(taken.update(c, true)) + 1 == free_count(taken),
    decreases taken.len(),
{
    let u = taken.update(c, true);
    if c < taken.len() - 1 {
        assert(u.drop_last() =~= taken.drop_last().update(c, true));
        lemma_free_count_take(taken.drop_last(), c);
    } else {
        assert(u.drop_last() =~= taken.drop_last());
    }
}

/// With a task free, there is a free index.
proof fn lemma_some_free(taken: Seq<bool>)
    requires
        free_count(taken) > 0,
    ensures
        exists|c: int| 0 <= c < taken.len() && !taken[c],
    decreases taken.len(),
{
    if taken.last() {
        lemma_some_free(taken.drop_last());
        let c = choose|c: int| 0 <= c < taken.drop_last().len() && !taken.drop_last()[c];
        assert(!taken[c]);
    } else {
        assert(!taken[taken.len() - 1]);
    }
}

/// The search stopped at the level below the tasks `taken` have placed: a
/// task is still free there, every free task was refused at the lowest free
/// level, and either every one of those refusals is a finding (a response
/// past the deadline, or no fixed point), when `limit` is `None`, or some
/// free task was refused with the limit `limit` carries.
pub open spec fn stopped_at(ts: Seq<Task>, taken: Seq<bool>, limit: Option<AnalysisFailure>) -> bool {
    &&& taken.len() == ts.len()
    &&& exists|c: int| 0 <= c < ts.len() && !taken[c]
    &&& forall|c: int|
        0 <= c < ts.len() && !taken[c] ==> (#[trigger] bottom_answer(ts, taken, c)) is Refused
    &&& match limit {
        None => forall|c: int|
            0 <= c < ts.len() && !taken[c] ==> (#[trigger] bottom_answer(ts, taken, c))->Refused_0
                is ExceedsDeadline || bottom_answer(ts, taken, c)->Refused_0 is NonConvergent,
        Some(f) => exists|c: int|
            0 <= c < ts.len() && !taken[c] && #[trigger] bottom_answer(ts, taken, c)
                == Response::Refused(f),
    }
}

/// Past `from`, no free candidate fits when the first fit is none.
proof fn lemma_first_fit_none(ts: Seq<Task>, taken: Seq<bool>, from: int)
    requires
        0 <= from,
        first_fit(ts, taken, from) is None,
    ensures
        forall|c: int| from <= c < ts.len() && !taken[c] ==> !fits_at_bottom(ts, taken, c),
    decreases ts.len() - from,
{
    if from < ts.len() {
        lemma_first_fit_none(ts, taken, from + 1);
    }
}

/// What the first limit from `from` says of the free candidates past it.
proof fn lemma_first_limit_facts(ts: Seq<Task>, taken: Seq<bool>, from: int)
    requires
        0 <= from,
        forall|c: int| from <= c < ts.len() && !taken[c] ==> !fits_at_bottom(ts, taken, c),
    ensures
        first_limit(ts, taken, from) is None ==> forall|c: int|
            from <= c < ts.len() && !taken[c] ==> (#[trigger] bottom_answer(ts, taken, c))->Refused_0
                is ExceedsDeadline || bottom_answer(ts, taken, c)->Refused_0 is NonConvergent,
        first_limit(ts, taken, from) matches Some(f) ==> exists|c: int|
            from <= c < ts.len() && !taken[c] && #[trigger] bottom_answer(ts, taken, c)
                == Response::Refused(f),
    decreases ts.len() - from,
{
    if from < ts.len() {
        lemma_first_limit_facts(ts, taken, from + 1);
        if !taken[from] {
            assert(!fits_at_bottom(ts, taken, from));
        }
    }
}

/// Where Audsley's assignment of the `k` free tasks finds no order, it
/// stopped at a level as [`stopped_at`] describes, with the limit it names.
pub proof fn lemma_audsley_stops_at_a_level(ts: Seq<Task>, taken: Seq<bool>, k: nat)
    requires
        taken.len() == ts.len(),
        free_count(taken) >= k,
        audsley(ts, taken, k) is None,
    ensures
        exists|t2: Seq<bool>| stopped_at(ts, t2, audsley_limit(ts, taken, k)),
    decreases k,
{
    match first_fit(ts, taken, 0) {
        None => {
            lemma_some_free(taken);
            lemma_first_fit_none(ts, taken, 0);
            lemma_first_limit_facts(ts, taken, 0);
            assert(stopped_at(ts, taken, audsley_limit(ts, taken, k)));
        },
        Some(c) => {
            lemma_first_fit_found(ts, taken, 0);
            lemma_free_count_take(taken, c);
            lemma_audsley_stops_at_a_level(ts, taken.update(c, true), (k - 1) as nat);
        },
    }
}

/// Nothing is taken at the start.
pub proof fn lemma_all_free(n: nat)
    ensures
        free_count(Seq::new(n, |j: int| false)) == n,
    decreases n,
{
    if n > 0 {
        assert(Seq::new(n, |j: int| false).drop_last() =~= Seq::new((n - 1) as nat, |j: int| false));
        lemma_all_free((n - 1) as nat);
    }
}

} // verus!
