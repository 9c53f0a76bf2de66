// Every public entry point at the edges of the integer domain, where a refusal
// has to be a refusal and never a wrapped number.

use dy_wcet::{
    AnalysisFailure, PriorityAssignment, Rejected, Response, Task, TaskSet, BUSY_PERIOD_CAP,
    MAX_TASKS,
};

const EDGES: [u64; 6] = [0, 1, 2, 1_000, u64::MAX - 1, u64::MAX];

fn admitted(t: Task) -> Option<TaskSet> {
    let mut s = TaskSet::new();
    s.push(t).ok()?;
    Some(s)
}

/// No combination of edge values makes construction do anything but accept or
/// reject, and the rejection always names a reason.
#[test]
fn construction_accepts_or_names_its_refusal() {
    for &c in &EDGES {
        for &t in &EDGES {
            for &d in &EDGES {
                for &j in &[0u64, 1, u64::MAX] {
                    for &b in &[0u64, 1, u64::MAX] {
                        let task = Task::new(c, t).deadline(d).jitter(j).blocking(b);
                        let mut s = TaskSet::new();
                        match s.push(task) {
                            Ok(()) => assert_eq!(s.len(), 1),
                            Err(Rejected::ZeroPeriod) => assert_eq!(t, 0),
                            Err(Rejected::ExecutionExceedsDeadline) => assert!(c > d),
                            Err(Rejected::Full) => panic!("a one-task set cannot be full"),
                        }
                    }
                }
            }
        }
    }
}

/// `utilisation_ppm` on a single task: a number or `None`, never a wrap.
#[test]
fn task_utilisation_refuses_rather_than_wrapping() {
    for &c in &EDGES {
        for &t in &EDGES {
            let u = Task::new(c, t).utilisation_ppm();
            match u {
                None => assert!(t == 0 || c.checked_mul(1_000_000).is_none()),
                Some(v) => {
                    assert_eq!(v == 0, c == 0 || c * 1_000_000 / t == 0);
                }
            }
        }
    }
}

/// Every index, including the ones that would overflow `index + 1`.
#[test]
fn every_index_is_answerable() {
    let mut s = TaskSet::new();
    s.push(Task::new(1, 10)).unwrap();
    s.push(Task::new(2, 100)).unwrap();

    let whole = s.utilisation_ppm().unwrap();
    for &i in &[
        0usize,
        1,
        2,
        MAX_TASKS - 1,
        MAX_TASKS,
        usize::MAX - 1,
        usize::MAX,
    ] {
        let u = s.utilisation_through(i).expect("no overflow at any index");
        assert!(u <= whole);
        if i >= 1 {
            assert_eq!(u, whole);
        }

        match s.response_of(i) {
            Response::Bounded(_) => assert!(i < 2),
            Response::Refused(AnalysisFailure::NoSuchTask) => assert!(i >= 2),
            other => panic!("index {i} produced {other:?}"),
        }

        assert_eq!(s.slack_of(i).is_some(), i < 2);
        assert_eq!(s.get(i).is_some(), i < 2);
    }
}

/// The analysis at the top of the integer range refuses; it does not wrap.
#[test]
fn extreme_parameters_refuse_and_say_why() {
    let huge = Task::new(u64::MAX, u64::MAX).deadline(u64::MAX);
    let s = admitted(huge).expect("admissible: wcet equals deadline");
    assert_eq!(
        s.response_of(0),
        Response::Refused(AnalysisFailure::Overflow),
        "an unrepresentable utilisation must be refused, not truncated"
    );

    let mut s = TaskSet::new();
    s.push(Task::new(1, 10)).unwrap();
    s.push(Task::new(1, 10).deadline(u64::MAX).jitter(u64::MAX - 1))
        .unwrap();
    let _ = s.response_of(1);

    let mut s = TaskSet::new();
    s.push(Task::new(1, 1_000)).unwrap();
    s.push(
        Task::new(1, 1_000)
            .deadline(u64::MAX)
            .blocking(u64::MAX - 1),
    )
    .unwrap();
    assert!(
        matches!(s.response_of(1), Response::Refused(_)),
        "an unrepresentable busy period must be refused"
    );
}

/// A full set, then one more.
#[test]
fn the_set_fills_and_then_refuses() {
    let mut s = TaskSet::new();
    for k in 0..MAX_TASKS {
        s.push(Task::new(1, 1_000_000 + k as u64)).unwrap();
    }
    assert_eq!(s.len(), MAX_TASKS);
    assert_eq!(s.push(Task::new(1, 10)), Err(Rejected::Full));
    assert_eq!(s.len(), MAX_TASKS, "a refused push must not change the set");

    for i in 0..MAX_TASKS {
        assert!(matches!(s.response_of(i), Response::Bounded(_)));
    }
    assert_eq!(s.utilisation_through(usize::MAX), s.utilisation_ppm());
}

/// Sensitivity and priority assignment on degenerate sets.
#[test]
fn the_derived_answers_hold_at_the_edges() {
    let mut s = TaskSet::new();
    s.push(Task::new(10, 10)).unwrap();
    assert_eq!(s.max_wcet_increase(0), Some(0));
    assert_eq!(s.slack_of(0), Some(0));

    let empty = TaskSet::new();
    assert!(empty.is_empty());
    assert_eq!(empty.max_wcet_increase(0), None);
    assert_eq!(empty.slack_of(0), None);
    assert_eq!(empty.first_failure(), None);
    assert!(
        empty.is_schedulable(),
        "a set with no deadlines misses none"
    );
    assert_eq!(empty.utilisation_through(usize::MAX), Some(0));

    let mut over = TaskSet::new();
    over.push(Task::new(600, 1_000)).unwrap();
    over.push(Task::new(600, 1_000)).unwrap();
    assert!(!over.is_schedulable());
    assert_eq!(over.max_wcet_increase(0), None);
    assert_eq!(over.first_failure(), Some(1));
}

/// A saturated level with no disturbance converges: U = 1 exactly, and the
/// task responds in exactly its own execution time.
#[test]
fn saturated_without_disturbance_still_converges() {
    let mut s = TaskSet::new();
    s.push(Task::new(10, 10)).unwrap();
    assert_eq!(s.response_of(0), Response::Bounded(10));
}

/// `C = T = 10` with `J = 1`: at U = 1 with a disturbance,
/// f(L) ≥ L + B + Σ Jⱼ·Cⱼ/Tⱼ exceeds L for every L, so no fixed point
/// exists, and the refusal names that rather than an exhausted loop.
#[test]
fn saturated_with_jitter_has_no_fixed_point_and_says_so() {
    let mut s = TaskSet::new();
    s.push(Task::new(10, 10).jitter(1)).unwrap();
    assert_eq!(
        s.response_of(0),
        Response::Refused(AnalysisFailure::NonConvergent),
        "a saturated level with jitter has no fixed point, and the refusal \
         should name that rather than report an exhausted loop"
    );
}

/// Blocking is a disturbance too, by the same inequality.
#[test]
fn saturated_with_blocking_has_no_fixed_point() {
    let mut s = TaskSet::new();
    s.push(Task::new(10, 10).blocking(3)).unwrap();
    assert_eq!(
        s.response_of(0),
        Response::Refused(AnalysisFailure::NonConvergent)
    );
}

/// The floored gate reads exactly one for this set, and the jitter is what
/// makes it impossible.
#[test]
fn a_saturated_level_with_jitter_reads_exactly_full() {
    let mut s = TaskSet::new();
    s.push(Task::new(10, 10).jitter(1)).unwrap();
    assert_eq!(s.utilisation_ppm(), Some(1_000_000));
}

/// The fourteen smallest primes above one million. Each contributes
/// `⌊10⁶/p⌋ = 0` parts per million, so the floored gate sees exactly the one
/// million the first two tasks bring.
const WIDE: [u64; 14] = [
    1_000_003, 1_000_033, 1_000_037, 1_000_039, 1_000_081, 1_000_099, 1_000_117, 1_000_121,
    1_000_133, 1_000_151, 1_000_159, 1_000_171, 1_000_183, 1_000_187,
];

fn exactly_full_then_wide() -> TaskSet {
    let mut s = TaskSet::new();
    s.push(Task::new(1, 2).jitter(1)).unwrap();
    s.push(Task::new(1, 2)).unwrap();
    for &p in &WIDE {
        s.push(Task::new(1, p)).unwrap();
    }
    assert_eq!(s.len(), MAX_TASKS);
    s
}

#[test]
fn the_floored_gate_lets_this_level_through() {
    let s = exactly_full_then_wide();
    assert_eq!(s.utilisation_through(MAX_TASKS - 1), Some(1_000_000));
}

#[test]
fn a_level_full_at_the_second_task_is_proved_impossible() {
    // True utilisation 1 + Σ 1/p ≈ 1.000014, so no fixed point exists, and the
    // jitter means the busy period never closes.
    let s = exactly_full_then_wide();
    assert_eq!(
        s.response_of(MAX_TASKS - 1),
        Response::Refused(AnalysisFailure::NonConvergent),
    );
}

#[test]
fn every_level_from_the_saturating_one_down_is_impossible() {
    let s = exactly_full_then_wide();
    for i in 1..MAX_TASKS {
        assert_eq!(
            s.response_of(i),
            Response::Refused(AnalysisFailure::NonConvergent),
            "level {i} is at or above one from the second task on",
        );
    }
}

#[test]
fn a_level_below_one_is_never_called_saturated() {
    let mut s = TaskSet::new();
    for &p in &WIDE {
        s.push(Task::new(1, p).jitter(1)).unwrap();
    }
    for i in 0..s.len() {
        assert_ne!(
            s.response_of(i),
            Response::Refused(AnalysisFailure::NonConvergent),
            "level {i} is at about 10⁻⁵ utilisation",
        );
    }
}

/// `⌈(busy + jitter) / period⌉`, at least one.
fn jobs_in_window(busy: u64, jitter: u64, period: u64) -> u64 {
    let released = busy + jitter;
    let n = released / period + u64::from(released % period != 0);
    n.max(1)
}

/// A short period under a long blocking term puts more jobs in the busy
/// period than the cap admits.
#[test]
fn without_the_narrowing_the_per_job_loop_reaches_the_cap() {
    let n = jobs_in_window(1_000_000, 0, 2);
    assert!(
        n > BUSY_PERIOD_CAP,
        "expected the job count to exceed the cap, got {n}"
    );
}

/// With `c < t` and nothing else, a lone task always has a bound within its
/// period.
#[test]
fn the_narrowed_space_still_produces_bounded_answers() {
    let mut bounded = 0;
    for t in 2..200u64 {
        for c in 1..t {
            let (b, j) = (0, 0);
            if c + b + j >= t {
                continue;
            }
            let mut s = TaskSet::new();
            if s.push(Task::new(c, t).deadline(t).blocking(b).jitter(j))
                .is_ok()
            {
                if let Response::Bounded(r) = s.response_of(0) {
                    assert!(r <= t, "response {r} above deadline {t}");
                    bounded += 1;
                }
            }
        }
    }
    assert!(
        bounded > 1_000,
        "only {bounded} bounded answers — the narrowing has emptied the space"
    );
}

/// The puzzle: 300, not the 400 most people give.
#[test]
fn the_puzzle_answers_three_hundred() {
    let mut s = TaskSet::new();
    s.push(Task::new(100, 400)).unwrap();
    s.push(Task::new(200, 1000)).unwrap();
    assert_eq!(s.response_of(1), Response::Bounded(300));
}

fn quick_start() -> TaskSet {
    let mut set = TaskSet::new();
    set.push(Task::new(100, 400).named("sensor")).unwrap();
    set.push(
        Task::new(200, 1000)
            .blocking(20)
            .jitter(15)
            .named("control"),
    )
    .unwrap();
    set
}

/// The quick-start set: 335 µs, 665 of slack, and 465 µs of execution time to
/// spare, the last value that fits.
#[test]
fn the_sensitivity_figures_are_the_ones_shown() {
    let set = quick_start();
    assert_eq!(set.response_of(1), Response::Bounded(335));
    assert_eq!(set.slack_of(1), Some(665));
    assert_eq!(set.max_wcet_increase(1), Some(465));

    let at = |c: u64| {
        let mut s = TaskSet::new();
        s.push(Task::new(100, 400)).unwrap();
        s.push(Task::new(c, 1000).blocking(20).jitter(15)).unwrap();
        s.response_of(1)
    };
    assert_eq!(
        at(200 + 465),
        Response::Bounded(1000),
        "465 more lands on the deadline"
    );
    assert_eq!(
        at(200 + 466),
        Response::Refused(AnalysisFailure::ExceedsDeadline(1001)),
        "466 more is one past it"
    );
}

/// A priority search that ran out of candidates because the analysis
/// declined them has not shown that no ordering exists. Both tasks carry a
/// blocking term large enough that the level busy period reaches 12 600 µs,
/// 6 300 jobs of the two-microsecond task and 4 200 of the three, past
/// `BUSY_PERIOD_CAP`, at a utilisation of 0.833.
#[test]
fn a_refused_candidate_leaves_the_search_inconclusive() {
    let mut s = TaskSet::new();
    s.push(Task::new(1, 2).blocking(2100)).unwrap();
    s.push(Task::new(1, 3).blocking(2100)).unwrap();

    match s.optimal_priority_order() {
        PriorityAssignment::Inconclusive(AnalysisFailure::BusyPeriodLimit) => {}
        other => panic!(
            "expected Inconclusive(BusyPeriodLimit) when every candidate was \
             capped rather than analysed, got {other:?}"
        ),
    }
    assert!(
        !s.optimal_priority_order().is_proven_impossible(),
        "a cap is not a proof that no ordering works"
    );
}

/// An overloaded set refuses with `NonConvergent` at every level, and that is
/// a proof rather than a limit.
#[test]
fn an_overloaded_set_is_proven_impossible_not_inconclusive() {
    let mut s = TaskSet::new();
    s.push(Task::new(300, 400)).unwrap();
    s.push(Task::new(300, 400)).unwrap();
    assert_eq!(s.optimal_priority_order(), PriorityAssignment::NoOrdering);
    assert!(s.optimal_priority_order().is_proven_impossible());
}

/// Every refusal is classified, one by one.
#[test]
fn every_refusal_declares_whether_it_establishes_anything() {
    assert!(AnalysisFailure::ExceedsDeadline(9).is_determinate());
    assert!(AnalysisFailure::NonConvergent.is_determinate());
    assert!(!AnalysisFailure::IterationLimit.is_determinate());
    assert!(!AnalysisFailure::BusyPeriodLimit.is_determinate());
    assert!(!AnalysisFailure::Overflow.is_determinate());
    assert!(!AnalysisFailure::NoSuchTask.is_determinate());
}

/// Every loop of the analysis walks the set's tasks; a level deeper than the
/// set is the whole set, however few tasks are pushed.
#[test]
fn the_array_walk_is_the_floor_under_every_bound() {
    let mut s = TaskSet::new();
    s.push(Task::new(1, 1_000)).unwrap();
    assert_eq!(s.len(), 1);
    assert_eq!(s.utilisation_through(usize::MAX), s.utilisation_ppm());
    assert_eq!(MAX_TASKS, 16, "the floor under the bounds moved");
}

/// The quick start, the exhaustive match, and the priority search, as written.
#[test]
fn the_quick_start_and_both_matches_compile_and_answer_as_shown() {
    let set = quick_start();
    assert_eq!(set.response_of(1), Response::Bounded(335));

    // Exhaustive over all six refusals, with no wildcard.
    let said = match set.response_of(1) {
        Response::Bounded(_) => "meets",
        Response::Refused(AnalysisFailure::ExceedsDeadline(_)) => "misses",
        Response::Refused(AnalysisFailure::NonConvergent) => "impossible",
        Response::Refused(AnalysisFailure::IterationLimit) => "iteration",
        Response::Refused(AnalysisFailure::BusyPeriodLimit) => "busy",
        Response::Refused(AnalysisFailure::Overflow) => "overflow",
        Response::Refused(AnalysisFailure::NoSuchTask) => "none",
    };
    assert_eq!(said, "meets");

    match set.optimal_priority_order() {
        PriorityAssignment::Found(_) => {}
        other => panic!("an order is found for this set, got {other:?}"),
    }
    assert_eq!(set.max_provable_wcet_increase(1), Some(465));
}

/// The refusal table's "what it prints" column, word for word.
#[test]
fn every_refusal_prints_what_the_readme_table_says() {
    let table = [
        (
            AnalysisFailure::ExceedsDeadline(412),
            "converges at 412 us, past the deadline",
        ),
        (
            AnalysisFailure::NonConvergent,
            "utilisation exceeds one; no fixed point exists",
        ),
        (
            AnalysisFailure::IterationLimit,
            "the recurrence did not settle within the iteration cap",
        ),
        (
            AnalysisFailure::BusyPeriodLimit,
            "the busy period is bounded but holds more jobs than the cap admits",
        ),
        (
            AnalysisFailure::Overflow,
            "the arithmetic overflowed and was refused",
        ),
        (AnalysisFailure::NoSuchTask, "no task at that index"),
    ];
    for (f, printed) in table {
        assert_eq!(f.describe(), printed, "{f:?} does not print what the table says");
    }
}
