//! The analysis as mathematics: the recurrence, its checked-arithmetic
//! refusals and its caps, stated over sequences of tasks.
//!
//! A task set is modelled by the sequence of its tasks, highest priority
//! first. Every quantity is an unbounded `int`; the refusals of the checked
//! `u64` arithmetic appear as explicit comparisons with `u64::MAX`.
use vstd::prelude::*;

use crate::response::{AnalysisFailure, Response};
use crate::task::Task;
use crate::{BUSY_PERIOD_CAP, FULL_UTILISATION_PPM, ITERATION_CAP, MAX_TASKS};

verus! {

/// `⌈a / b⌉` for a positive `b`.
pub open spec fn ceil_div(a: int, b: int) -> int {
    if a % b == 0 {
        a / b
    } else {
        a / b + 1
    }
}

/// A task a set may hold: a nonzero period, and no more work than fits
/// before its deadline.
pub open spec fn admissible(t: Task) -> bool {
    t.period_us > 0 && t.wcet_us <= t.deadline_us
}

/// A sequence that a task set can hold: at most [`MAX_TASKS`] admissible
/// tasks.
pub open spec fn valid_tasks(ts: Seq<Task>) -> bool {
    &&& ts.len() <= MAX_TASKS
    &&& forall|k: int| 0 <= k < ts.len() ==> admissible(#[trigger] ts[k])
}

/// `Σ f(t)` over the tasks of `s`.
pub open spec fn sum_of(s: Seq<Task>, f: spec_fn(Task) -> int) -> int
    decreases s.len(),
{
    if s.len() == 0 {
        0
    } else {
        sum_of(s.drop_last(), f) + f(s.last())
    }
}

/// A task's execution time.
pub open spec fn wcet_term() -> spec_fn(Task) -> int {
    |t: Task| t.wcet_us as int
}

/// A task's utilisation in parts per million, floored.
pub open spec fn util_term() -> spec_fn(Task) -> int {
    |t: Task| (t.wcet_us * FULL_UTILISATION_PPM) / (t.period_us as int)
}

/// One for a task whose release jitter moves work, zero otherwise.
pub open spec fn jitter_term() -> spec_fn(Task) -> int {
    |t: Task| if t.jitter_us > 0 && t.wcet_us > 0 { 1int } else { 0int }
}

/// The level of `t` below `higher` is disturbed: `t` is blocked, or some task
/// of the level carries jitter on nonzero work. At a utilisation of exactly
/// one, a disturbance leaves the busy-period recurrence no fixed point, since
/// `L + B + Σ Jⱼ·Cⱼ/Tⱼ` then exceeds `L` for every `L`.
pub open spec fn disturbed(higher: Seq<Task>, t: Task) -> bool {
    t.blocking_us > 0 || sum_of(higher.push(t), jitter_term()) > 0
}

/// Releases of `t` that can fall in a window of length `w`: `⌈(w + J)/T⌉`.
pub open spec fn releases(t: Task, w: int) -> int {
    ceil_div(w + t.jitter_us, t.period_us as int)
}

/// The work `t` brings into a window of length `w`: `⌈(w + J)/T⌉ · C`.
pub open spec fn demand_term(w: int) -> spec_fn(Task) -> int {
    |t: Task| releases(t, w) * t.wcet_us
}

/// Utilisation of a priority level in parts per million: the sum of the
/// floored per-task figures, or `None` when a figure or the sum does not fit.
pub open spec fn level_utilisation(level: Seq<Task>) -> Option<u64> {
    if (forall|j: int| 0 <= j < level.len() ==> (#[trigger] level[j]).utilisation_spec() is Some)
        && sum_of(level, util_term()) <= u64::MAX {
        Some(sum_of(level, util_term()) as u64)
    } else {
        None
    }
}

/// Every window `w + Jⱼ` over the tasks of `higher` fits in a `u64`.
pub open spec fn windows_fit(higher: Seq<Task>, w: int) -> bool {
    forall|j: int| 0 <= j < higher.len() ==> w + (#[trigger] higher[j]).jitter_us <= u64::MAX
}

/// One application of the recurrence `base + Σ ⌈(w + Jⱼ)/Tⱼ⌉ · Cⱼ` over
/// `higher`, or `None` when checked arithmetic refuses it.
pub open spec fn recurrence(higher: Seq<Task>, base: int, w: int) -> Option<int> {
    let next = base + sum_of(higher, demand_term(w));
    if windows_fit(higher, w) && next <= u64::MAX {
        Some(next)
    } else {
        None
    }
}

/// The fixed-point search from `w`, allowed `fuel` more applications of the
/// recurrence: the first `w` it maps to itself, `Overflow` when an
/// application is refused, and `IterationLimit` when the fuel runs out.
pub open spec fn solve(higher: Seq<Task>, base: int, w: int, fuel: nat) -> Result<
    int,
    AnalysisFailure,
>
    decreases fuel,
{
    if fuel == 0 {
        Err(AnalysisFailure::IterationLimit)
    } else {
        match recurrence(higher, base, w) {
            None => Err(AnalysisFailure::Overflow),
            Some(next) => if next == w {
                Ok(w)
            } else {
                solve(higher, base, next, (fuel - 1) as nat)
            },
        }
    }
}

/// The iteration budget of every search.
pub open spec fn cap() -> nat {
    ITERATION_CAP as nat
}

/// The level-i busy period of task `t` below the tasks `higher`:
/// `L = B + Σ ⌈(L + Jⱼ)/Tⱼ⌉ · Cⱼ` over `t` and everything above it, searched
/// from `B + Σ Cⱼ`.
pub open spec fn busy_period(higher: Seq<Task>, t: Task) -> Result<int, AnalysisFailure> {
    let level = higher.push(t);
    let seed = t.blocking_us + sum_of(level, wcet_term());
    if seed > u64::MAX {
        Err(AnalysisFailure::Overflow)
    } else {
        solve(level, t.blocking_us as int, seed, cap())
    }
}

/// Jobs of `t` released inside a busy period of length `busy`:
/// `max(1, ⌈(busy + J)/T⌉)`.
pub open spec fn jobs_in_busy_period(t: Task, busy: int) -> int {
    let n = releases(t, busy);
    if n < 1 {
        1
    } else {
        n
    }
}

/// `(q+1)·C + B`: the work of jobs `0..=q` of `t` and its one blocking term.
pub open spec fn job_base(t: Task, q: int) -> int {
    (q + 1) * t.wcet_us + t.blocking_us
}

/// The response of job `q` of task `t` below `higher`, measured from its own
/// release: `R(q) = w(q) + J − q·T`, where `w(q)` solves the recurrence
/// over `higher` from `(q+1)·C + B`.
pub open spec fn job_response(higher: Seq<Task>, t: Task, q: int) -> Result<int, AnalysisFailure> {
    let base = job_base(t, q);
    if base > u64::MAX {
        Err(AnalysisFailure::Overflow)
    } else {
        match solve(higher, base, base, cap()) {
            Err(e) => Err(e),
            Ok(w) => if q * t.period_us > u64::MAX || w + t.jitter_us > u64::MAX || w
                + t.jitter_us < q * t.period_us {
                Err(AnalysisFailure::Overflow)
            } else {
                Ok(w + t.jitter_us - q * t.period_us)
            },
        }
    }
}

/// The largest response over jobs `0..n` of `t`, or the first refusal met in
/// job order.
pub open spec fn worst_response(higher: Seq<Task>, t: Task, n: int) -> Result<
    int,
    AnalysisFailure,
>
    decreases n,
{
    if n <= 0 {
        Ok(0)
    } else {
        match worst_response(higher, t, n - 1) {
            Err(e) => Err(e),
            Ok(m) => match job_response(higher, t, n - 1) {
                Err(e) => Err(e),
                Ok(r) => Ok(
                    if r > m {
                        r
                    } else {
                        m
                    },
                ),
            },
        }
    }
}

/// The answer for task `t` below the tasks `higher`, refusals in the order
/// they are checked: utilisation of the level not representable; above one,
/// or exactly one (floored, so at least one in truth) with a disturbance;
/// the busy period refused; its job count past [`BUSY_PERIOD_CAP`]; a
/// job refused; and finally the worst job response against the deadline.
pub open spec fn analyse(higher: Seq<Task>, t: Task) -> Response {
    match level_utilisation(higher.push(t)) {
        None => Response::Refused(AnalysisFailure::Overflow),
        Some(u) => if u > FULL_UTILISATION_PPM || (u == FULL_UTILISATION_PPM && disturbed(
            higher,
            t,
        )) {
            Response::Refused(AnalysisFailure::NonConvergent)
        } else {
            match busy_period(higher, t) {
                Err(e) => Response::Refused(e),
                Ok(busy) => if busy + t.jitter_us > u64::MAX {
                    Response::Refused(AnalysisFailure::Overflow)
                } else {
                    let n = jobs_in_busy_period(t, busy);
                    if n > BUSY_PERIOD_CAP {
                        Response::Refused(AnalysisFailure::BusyPeriodLimit)
                    } else {
                        match worst_response(higher, t, n) {
                            Err(e) => Response::Refused(e),
                            Ok(w) => if w > t.deadline_us {
                                Response::Refused(AnalysisFailure::ExceedsDeadline(w as u64))
                            } else {
                                Response::Bounded(w as u64)
                            },
                        }
                    }
                },
            }
        },
    }
}

/// The answer for task `i` of `ts`: `NoSuchTask` past the end, otherwise the
/// analysis of `ts[i]` below `ts[0..i]`.
pub open spec fn response_spec(ts: Seq<Task>, i: int) -> Response {
    if i < 0 || i >= ts.len() {
        Response::Refused(AnalysisFailure::NoSuchTask)
    } else {
        analyse(ts.take(i), ts[i])
    }
}

/// Every task of `ts` has a bound at or below its deadline.
pub open spec fn schedulable(ts: Seq<Task>) -> bool {
    forall|k: int| 0 <= k < ts.len() ==> (#[trigger] response_spec(ts, k)) is Bounded
}

/// `ts` with the execution time of task `i` replaced by `c`.
pub open spec fn with_wcet(ts: Seq<Task>, i: int, c: int) -> Seq<Task> {
    ts.update(i, Task { wcet_us: c as u64, ..ts[i] })
}

/// Task `i` could execute `extra` longer and the whole set would still meet
/// every deadline.
pub open spec fn fits_with_extra(ts: Seq<Task>, i: int, extra: int) -> bool {
    &&& ts[i].wcet_us + extra <= ts[i].deadline_us
    &&& schedulable(with_wcet(ts, i, ts[i].wcet_us + extra))
}

/// The Liu and Layland bound `n · (2^(1/n) − 1)` in parts per million,
/// floored, tabulated to sixteen tasks; `ln 2`, floored, past the table.
pub open spec fn liu_layland_table(n: int) -> u64 {
    if n == 0 || n == 1 {
        1_000_000
    } else if n == 2 {
        828_427
    } else if n == 3 {
        779_763
    } else if n == 4 {
        756_828
    } else if n == 5 {
        743_491
    } else if n == 6 {
        734_772
    } else if n == 7 {
        728_626
    } else if n == 8 {
        724_061
    } else if n == 9 {
        720_537
    } else if n == 10 {
        717_734
    } else if n == 11 {
        715_451
    } else if n == 12 {
        713_557
    } else if n == 13 {
        711_958
    } else if n == 14 {
        710_592
    } else if n == 15 {
        709_411
    } else if n == 16 {
        708_380
    } else {
        693_147
    }
}

/// The preconditions of the Liu and Layland theorem: every deadline equals
/// its period, no blocking and no jitter, and rate-monotonic priorities.
pub open spec fn liu_layland_premises(ts: Seq<Task>) -> bool {
    &&& forall|k: int|
        0 <= k < ts.len() ==> (#[trigger] ts[k]).deadline_us == ts[k].period_us
            && ts[k].blocking_us == 0 && ts[k].jitter_us == 0
    &&& forall|k: int| 0 < k < ts.len() ==> ts[k - 1].period_us <= (#[trigger] ts[k]).period_us
}

/// The Liu and Layland pre-check: its premises hold, utilisation is
/// representable, and the exact utilisation `Σ Cⱼ·10⁶/Tⱼ`, not the sum of
/// floored figures, is within the bound for the set's size.
pub open spec fn passes_liu_layland(ts: Seq<Task>) -> bool {
    &&& liu_layland_premises(ts)
    &&& level_utilisation(ts) is Some
    &&& crate::exact::exactly_within(ts, liu_layland_table(ts.len() as int) as int)
}

/// The tasks not yet `taken`, other than `c`, among the first `m`, in index
/// order: what sits above candidate `c` when it is tried at a level.
pub open spec fn others_above(ts: Seq<Task>, taken: Seq<bool>, c: int, m: int) -> Seq<Task>
    decreases m,
{
    if m <= 0 {
        Seq::empty()
    } else {
        let prev = others_above(ts, taken, c, m - 1);
        if !taken[m - 1] && m - 1 != c {
            prev.push(ts[m - 1])
        } else {
            prev
        }
    }
}

/// Candidate `c` at the lowest free level, below every other free task.
pub open spec fn trial_set(ts: Seq<Task>, taken: Seq<bool>, c: int) -> Seq<Task> {
    others_above(ts, taken, c, ts.len() as int).push(ts[c])
}

/// The answer for candidate `c` at the lowest free level.
pub open spec fn bottom_answer(ts: Seq<Task>, taken: Seq<bool>, c: int) -> Response {
    response_spec(trial_set(ts, taken, c), trial_set(ts, taken, c).len() - 1)
}

/// Candidate `c` meets its deadline at the lowest free level.
pub open spec fn fits_at_bottom(ts: Seq<Task>, taken: Seq<bool>, c: int) -> bool {
    bottom_answer(ts, taken, c) is Bounded
}

/// The lowest-indexed free candidate at or after `from` that fits at the
/// lowest free level.
pub open spec fn first_fit(ts: Seq<Task>, taken: Seq<bool>, from: int) -> Option<int>
    decreases ts.len() - from,
{
    if from < 0 || from >= ts.len() {
        None
    } else if !taken[from] && fits_at_bottom(ts, taken, from) {
        Some(from)
    } else {
        first_fit(ts, taken, from + 1)
    }
}

/// Audsley's assignment of the `k` free tasks to priority levels `0..k`,
/// filling the lowest level first and never revisiting a choice: the set's
/// indices in priority order, or `None` when some level has no candidate.
pub open spec fn audsley(ts: Seq<Task>, taken: Seq<bool>, k: nat) -> Option<Seq<int>>
    decreases k,
{
    if k == 0 {
        Some(Seq::empty())
    } else {
        match first_fit(ts, taken, 0) {
            None => None,
            Some(c) => match audsley(ts, taken.update(c, true), (k - 1) as nat) {
                None => None,
                Some(upper) => Some(upper.push(c)),
            },
        }
    }
}

/// The first free candidate at or after `from` that was refused at the
/// lowest free level by a limit of the analysis, and that refusal.
pub open spec fn first_limit(ts: Seq<Task>, taken: Seq<bool>, from: int) -> Option<AnalysisFailure>
    decreases ts.len() - from,
{
    if from < 0 || from >= ts.len() {
        None
    } else if !taken[from] && (bottom_answer(ts, taken, from) matches Response::Refused(f)
        && !f.determinate()) {
        Some(bottom_answer(ts, taken, from)->Refused_0)
    } else {
        first_limit(ts, taken, from + 1)
    }
}

/// Where Audsley's assignment of the `k` free tasks stops, if it stops: the
/// first refusal by a limit among the candidates at the level that has no
/// candidate, or `None` when every candidate there was shown to miss (or
/// when the assignment completes).
pub open spec fn audsley_limit(ts: Seq<Task>, taken: Seq<bool>, k: nat) -> Option<AnalysisFailure>
    decreases k,
{
    if k == 0 {
        None
    } else {
        match first_fit(ts, taken, 0) {
            None => first_limit(ts, taken, 0),
            Some(c) => audsley_limit(ts, taken.update(c, true), (k - 1) as nat),
        }
    }
}

/// Where Audsley's assignment over the whole of `ts` stops on a limit.
pub open spec fn priority_limit(ts: Seq<Task>) -> Option<AnalysisFailure> {
    audsley_limit(ts, Seq::new(ts.len(), |j: int| false), ts.len())
}

/// Audsley's assignment over the whole of `ts`.
pub open spec fn priority_order(ts: Seq<Task>) -> Option<Seq<int>> {
    audsley(ts, Seq::new(ts.len(), |j: int| false), ts.len())
}

// ---------------------------------------------------------------------------
// Lemmas on sums
// ---------------------------------------------------------------------------

/// The sum over a prefix one longer adds the next element.
pub proof fn lemma_sum_take_step(s: Seq<Task>, n: int, f: spec_fn(Task) -> int)
    requires
        0 <= n < s.len(),
    ensures
        sum_of(s.take(n + 1), f) == sum_of(s.take(n), f) + f(s[n]),
{
    assert(s.take(n + 1).drop_last() =~= s.take(n));
}

/// The sum over the whole sequence is the sum over its full prefix.
pub proof fn lemma_sum_take_all(s: Seq<Task>, f: spec_fn(Task) -> int)
    ensures
        sum_of(s.take(s.len() as int), f) == sum_of(s, f),
{
    assert(s.take(s.len() as int) =~= s);
}

/// With nonnegative terms, a sum over a prefix is nonnegative and grows with
/// the prefix.
pub proof fn lemma_sum_prefix_mono(s: Seq<Task>, m: int, n: int, f: spec_fn(Task) -> int)
    requires
        0 <= m <= n <= s.len(),
        forall|k: int| 0 <= k < s.len() ==> f(#[trigger] s[k]) >= 0,
    ensures
        0 <= sum_of(s.take(m), f) <= sum_of(s.take(n), f),
    decreases n,
{
    if n == 0 {
        assert(s.take(0) =~= Seq::<Task>::empty());
    } else if m == n {
        lemma_sum_prefix_mono(s, m - 1, n - 1, f);
        lemma_sum_take_step(s, n - 1, f);
    } else {
        lemma_sum_prefix_mono(s, m, n - 1, f);
        lemma_sum_take_step(s, n - 1, f);
    }
}

/// A sum dominates each of its terms when all terms are nonnegative.
pub proof fn lemma_sum_bounds_term(s: Seq<Task>, k: int, n: int, f: spec_fn(Task) -> int)
    requires
        0 <= k < n <= s.len(),
        forall|j: int| 0 <= j < s.len() ==> f(#[trigger] s[j]) >= 0,
    ensures
        sum_of(s.take(k), f) + f(s[k]) <= sum_of(s.take(n), f),
{
    lemma_sum_take_step(s, k, f);
    lemma_sum_prefix_mono(s, k + 1, n, f);
}

/// A pointwise larger term gives a larger sum.
pub proof fn lemma_sum_pointwise_le(s: Seq<Task>, f: spec_fn(Task) -> int, g: spec_fn(Task) -> int)
    requires
        forall|k: int| 0 <= k < s.len() ==> f(#[trigger] s[k]) <= g(s[k]),
    ensures
        sum_of(s, f) <= sum_of(s, g),
    decreases s.len(),
{
    if s.len() > 0 {
        let t = s.drop_last();
        assert forall|k: int| 0 <= k < t.len() implies f(#[trigger] t[k]) <= g(t[k]) by {
            assert(t[k] == s[k]);
        }
        lemma_sum_pointwise_le(t, f, g);
        assert(f(s[s.len() - 1]) <= g(s[s.len() - 1]));
    }
}

/// The sum over `s` is the sum over any sequence with the same multiset of
/// elements.
pub proof fn lemma_sum_permutation(s1: Seq<Task>, s2: Seq<Task>, f: spec_fn(Task) -> int)
    requires
        s1.to_multiset() == s2.to_multiset(),
    ensures
        sum_of(s1, f) == sum_of(s2, f),
    decreases s1.len(),
{
    broadcast use vstd::seq_lib::group_to_multiset_ensures;

    if s1.len() == 0 {
        assert(s2.to_multiset().len() == 0);
        assert(s2.len() == 0);
    } else {
        let x = s1.last();
        assert(s1 =~= s1.drop_last().push(x));
        assert(s1.to_multiset().count(x) > 0);
        assert(s2.contains(x));
        let k = choose|k: int| 0 <= k < s2.len() && s2[k] == x;
        let r2 = s2.remove(k);
        assert(r2.to_multiset() =~= s2.to_multiset().remove(x));
        assert(s1.drop_last().to_multiset() =~= s1.to_multiset().remove(x));
        lemma_sum_permutation(s1.drop_last(), r2, f);
        lemma_sum_remove(s2, k, f);
    }
}

/// Removing the element at `k` takes its term out of the sum.
pub proof fn lemma_sum_remove(s: Seq<Task>, k: int, f: spec_fn(Task) -> int)
    requires
        0 <= k < s.len(),
    ensures
        sum_of(s, f) == sum_of(s.remove(k), f) + f(s[k]),
    decreases s.len(),
{
    if k == s.len() - 1 {
        assert(s.remove(k) =~= s.drop_last());
    } else {
        let t = s.drop_last();
        lemma_sum_remove(t, k, f);
        assert(s.remove(k).drop_last() =~= t.remove(k));
        assert(s.remove(k).last() == s.last());
    }
}

// ---------------------------------------------------------------------------
// Lemmas on the arithmetic
// ---------------------------------------------------------------------------

/// `⌈a/b⌉` is nonnegative, at least `a/b`, and monotone in `a`.
pub proof fn lemma_ceil_div_basics(a: int, a2: int, b: int)
    requires
        0 <= a <= a2,
        b > 0,
    ensures
        0 <= ceil_div(a, b) <= ceil_div(a2, b),
        ceil_div(a, b) * b >= a,
        a > 0 ==> ceil_div(a, b) >= 1,
{
    vstd::arithmetic::div_mod::lemma_div_is_ordered(a, a2, b);
    vstd::arithmetic::div_mod::lemma_fundamental_div_mod(a, b);
    vstd::arithmetic::div_mod::lemma_fundamental_div_mod(a2, b);
    vstd::arithmetic::div_mod::lemma_div_pos_is_pos(a, b);
    vstd::arithmetic::div_mod::lemma_mod_bound(a, b);
    vstd::arithmetic::div_mod::lemma_mod_bound(a2, b);
    vstd::arithmetic::mul::lemma_mul_is_distributive_add_other_way(b, a / b, 1);
    if a / b == a2 / b && a % b != 0 && a2 % b == 0 {
        assert(false);
    }
    if a > 0 && a / b == 0 {
        assert(a % b != 0);
    }
}

/// Every demand term is nonnegative over admissible tasks.
pub proof fn lemma_demand_nonneg(s: Seq<Task>, w: int)
    requires
        w >= 0,
        forall|k: int| 0 <= k < s.len() ==> (#[trigger] s[k]).period_us > 0,
    ensures
        forall|k: int| 0 <= k < s.len() ==> demand_term(w)(#[trigger] s[k]) >= 0,
{
    assert forall|k: int| 0 <= k < s.len() implies demand_term(w)(#[trigger] s[k]) >= 0 by {
        let t = s[k];
        lemma_ceil_div_basics(w + t.jitter_us, w + t.jitter_us, t.period_us as int);
        vstd::arithmetic::mul::lemma_mul_nonnegative(releases(t, w), t.wcet_us as int);
    }
}

/// A longer window brings at least as much work.
pub proof fn lemma_demand_mono(s: Seq<Task>, w1: int, w2: int)
    requires
        0 <= w1 <= w2,
        forall|k: int| 0 <= k < s.len() ==> (#[trigger] s[k]).period_us > 0,
    ensures
        0 <= sum_of(s, demand_term(w1)) <= sum_of(s, demand_term(w2)),
{
    assert forall|k: int| 0 <= k < s.len() implies demand_term(w1)(#[trigger] s[k])
        <= demand_term(w2)(s[k]) by {
        let t = s[k];
        lemma_ceil_div_basics(w1 + t.jitter_us, w2 + t.jitter_us, t.period_us as int);
        vstd::arithmetic::mul::lemma_mul_inequality(
            releases(t, w1),
            releases(t, w2),
            t.wcet_us as int,
        );
    }
    lemma_sum_pointwise_le(s, demand_term(w1), demand_term(w2));
    lemma_demand_nonneg(s, w1);
    lemma_sum_prefix_mono(s, 0, s.len() as int, demand_term(w1));
    assert(s.take(0) =~= Seq::<Task>::empty());
    lemma_sum_take_all(s, demand_term(w1));
}

/// The tasks of a prefix of an admissible sequence are admissible.
pub proof fn lemma_prefix_valid(ts: Seq<Task>, n: int)
    requires
        valid_tasks(ts),
        0 <= n <= ts.len(),
    ensures
        forall|k: int| 0 <= k < ts.take(n).len() ==> admissible(#[trigger] ts.take(n)[k]),
        forall|k: int| 0 <= k < ts.take(n).len() ==> (#[trigger] ts.take(n)[k]).period_us > 0,
{
    assert forall|k: int| 0 <= k < ts.take(n).len() implies admissible(#[trigger] ts.take(n)[k]) by {
        assert(ts.take(n)[k] == ts[k]);
    }
}

/// What a settled search returns is a fixed point of the recurrence, and is
/// no smaller than the value it started from.
pub proof fn lemma_solve_settles_on_fixed_point(
    higher: Seq<Task>,
    base: int,
    w: int,
    fuel: nat,
)
    requires
        0 <= base <= w,
        forall|k: int| 0 <= k < higher.len() ==> (#[trigger] higher[k]).period_us > 0,
        solve(higher, base, w, fuel) is Ok,
    ensures
        recurrence(higher, base, solve(higher, base, w, fuel)->Ok_0) == Some(
            solve(higher, base, w, fuel)->Ok_0,
        ),
        base <= solve(higher, base, w, fuel)->Ok_0 <= u64::MAX,
    decreases fuel,
{
    lemma_demand_nonneg(higher, w);
    lemma_sum_prefix_mono(higher, 0, higher.len() as int, demand_term(w));
    assert(higher.take(0) =~= Seq::<Task>::empty());
    lemma_sum_take_all(higher, demand_term(w));
    let next = recurrence(higher, base, w)->Some_0;
    if next != w {
        lemma_solve_settles_on_fixed_point(higher, base, next, (fuel - 1) as nat);
    }
}

/// What a settled search returns lies below every value at or above its
/// start that the recurrence does not raise; in particular it is the least
/// fixed point at or above its start.
pub proof fn lemma_solve_least(higher: Seq<Task>, base: int, w: int, fuel: nat, y: int)
    requires
        0 <= base <= w <= y,
        forall|k: int| 0 <= k < higher.len() ==> (#[trigger] higher[k]).period_us > 0,
        solve(higher, base, w, fuel) is Ok,
        recurrence(higher, base, y) matches Some(z) && z <= y,
    ensures
        solve(higher, base, w, fuel)->Ok_0 <= y,
    decreases fuel,
{
    let next = recurrence(higher, base, w)->Some_0;
    if next != w {
        lemma_demand_mono(higher, w, y);
        assert(next <= y);
        lemma_demand_nonneg(higher, w);
        lemma_sum_prefix_mono(higher, 0, higher.len() as int, demand_term(w));
        assert(higher.take(0) =~= Seq::<Task>::empty());
        lemma_sum_take_all(higher, demand_term(w));
        lemma_solve_least(higher, base, next, (fuel - 1) as nat, y);
    }
}

/// A worst response over jobs is the largest of the job responses, each of
/// which fits in a `u64`.
pub proof fn lemma_worst_response_bounds(higher: Seq<Task>, t: Task, n: int)
    requires
        worst_response(higher, t, n) is Ok,
    ensures
        0 <= worst_response(higher, t, n)->Ok_0 <= u64::MAX,
        forall|q: int| 0 <= q < n ==> (#[trigger] job_response(higher, t, q)) is Ok
            && job_response(higher, t, q)->Ok_0 <= worst_response(higher, t, n)->Ok_0,
        n >= 1 ==> exists|q: int|
            0 <= q < n && (#[trigger] job_response(higher, t, q)) == Ok::<int, AnalysisFailure>(
                worst_response(higher, t, n)->Ok_0,
            ),
    decreases n,
{
    if n > 0 {
        lemma_worst_response_bounds(higher, t, n - 1);
        let r = job_response(higher, t, n - 1)->Ok_0;
        let m = worst_response(higher, t, n - 1)->Ok_0;
        if r > m {
            assert(job_response(higher, t, n - 1) == Ok::<int, AnalysisFailure>(
                worst_response(higher, t, n)->Ok_0,
            ));
        } else if n >= 2 {
            let q = choose|q: int|
                0 <= q < n - 1 && (#[trigger] job_response(higher, t, q)) == Ok::<
                    int,
                    AnalysisFailure,
                >(m);
            assert(job_response(higher, t, q) == Ok::<int, AnalysisFailure>(
                worst_response(higher, t, n)->Ok_0,
            ));
        } else {
            assert(job_response(higher, t, 0) == Ok::<int, AnalysisFailure>(
                worst_response(higher, t, n)->Ok_0,
            ));
        }
    }
}

/// Once a job is refused, every longer enumeration is refused the same way.
pub proof fn lemma_worst_response_err_persists(higher: Seq<Task>, t: Task, m: int, n: int)
    requires
        1 <= m <= n,
        worst_response(higher, t, m) is Err,
    ensures
        worst_response(higher, t, n) == worst_response(higher, t, m),
    decreases n,
{
    if n > m {
        lemma_worst_response_err_persists(higher, t, m, n - 1);
    }
}

/// A search refuses only by overflowing or by running out of iterations.
pub proof fn lemma_solve_refusals(higher: Seq<Task>, base: int, w: int, fuel: nat)
    ensures
        solve(higher, base, w, fuel) matches Err(e) ==> e == AnalysisFailure::Overflow || e
            == AnalysisFailure::IterationLimit,
    decreases fuel,
{
    if fuel > 0 {
        if let Some(next) = recurrence(higher, base, w) {
            if next != w {
                lemma_solve_refusals(higher, base, next, (fuel - 1) as nat);
            }
        }
    }
}

/// The busy period and the jobs refuse only by overflowing or by running out
/// of iterations.
pub proof fn lemma_job_refusals(higher: Seq<Task>, t: Task, n: int)
    ensures
        busy_period(higher, t) matches Err(e) ==> e == AnalysisFailure::Overflow || e
            == AnalysisFailure::IterationLimit,
        worst_response(higher, t, n) matches Err(e) ==> e == AnalysisFailure::Overflow || e
            == AnalysisFailure::IterationLimit,
    decreases n,
{
    let level = higher.push(t);
    lemma_solve_refusals(
        level,
        t.blocking_us as int,
        t.blocking_us + sum_of(level, wcet_term()),
        cap(),
    );
    if n > 0 {
        lemma_job_refusals(higher, t, n - 1);
        let base = job_base(t, n - 1);
        lemma_solve_refusals(higher, base, base, cap());
    }
}

/// The tasks above a candidate are at most the tasks looked at, one fewer
/// when the candidate is among them.
pub proof fn lemma_others_above_len(ts: Seq<Task>, taken: Seq<bool>, c: int, m: int)
    requires
        0 <= m <= ts.len(),
        0 <= c,
    ensures
        others_above(ts, taken, c, m).len() <= m,
        c < m ==> others_above(ts, taken, c, m).len() <= m - 1,
        forall|k: int|
            0 <= k < others_above(ts, taken, c, m).len() ==> exists|j: int|
                0 <= j < m && (#[trigger] others_above(ts, taken, c, m)[k]) == ts[j],
    decreases m,
{
    if m > 0 {
        lemma_others_above_len(ts, taken, c, m - 1);
        let prev = others_above(ts, taken, c, m - 1);
        let cur = others_above(ts, taken, c, m);
        assert forall|k: int| 0 <= k < cur.len() implies exists|j: int|
            0 <= j < m && (#[trigger] cur[k]) == ts[j] by {
            if k < prev.len() {
                assert(cur[k] == prev[k]);
                let j = choose|j: int| 0 <= j < m - 1 && prev[k] == ts[j];
                assert(0 <= j < m && cur[k] == ts[j]);
            } else {
                assert(cur[k] == ts[m - 1]);
            }
        }
    }
}

/// Past a candidate that does not qualify, the search continues unchanged.
pub proof fn lemma_first_fit_skip(ts: Seq<Task>, taken: Seq<bool>, from: int)
    requires
        0 <= from < ts.len(),
        taken[from] || !fits_at_bottom(ts, taken, from),
    ensures
        first_fit(ts, taken, from) == first_fit(ts, taken, from + 1),
{
}

/// A sum of execution times is nonnegative.
pub proof fn lemma_wcet_sum_nonneg(s: Seq<Task>)
    ensures
        sum_of(s, wcet_term()) >= 0,
    decreases s.len(),
{
    if s.len() > 0 {
        lemma_wcet_sum_nonneg(s.drop_last());
    }
}

/// The sum over one task is its term.
pub proof fn lemma_sum_single(t: Task, f: spec_fn(Task) -> int)
    ensures
        sum_of(seq![t], f) == f(t),
{
    assert(seq![t].drop_last() =~= Seq::<Task>::empty());
    assert(sum_of(Seq::<Task>::empty(), f) == 0);
    assert(seq![t].last() == t);
}

} // verus!
