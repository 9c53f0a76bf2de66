// The laws of the analysis, each on concrete values.

use dy_wcet::{AnalysisFailure, PriorityAssignment, Rejected, Response, Task, TaskSet};

#[test]
fn a_lone_task_pays_exactly_for_its_execution_blocking_and_jitter() {
    let mut s = TaskSet::new();
    s.push(Task::new(30, 100).blocking(20).jitter(10)).unwrap();
    assert_eq!(s.response_of(0), Response::Bounded(60));

    // Past its deadline the figure is the same sum.
    let mut late = TaskSet::new();
    late.push(Task::new(30, 100).deadline(50).blocking(20).jitter(10))
        .unwrap();
    assert_eq!(
        late.response_of(0),
        Response::Refused(AnalysisFailure::ExceedsDeadline(60))
    );
}

#[test]
fn the_blocking_and_deadline_of_a_higher_task_never_reach_a_lower_one() {
    let mut a = TaskSet::new();
    a.push(Task::new(100, 400)).unwrap();
    a.push(Task::new(200, 1000)).unwrap();
    let mut b = TaskSet::new();
    b.push(Task::new(100, 400).blocking(250).deadline(380)).unwrap();
    b.push(Task::new(200, 1000)).unwrap();
    assert_eq!(a.response_of(1), b.response_of(1));
    assert_eq!(b.response_of(1), Response::Bounded(300));
}

#[test]
fn the_order_of_the_tasks_above_does_not_change_an_answer() {
    let mut a = TaskSet::new();
    a.push(Task::new(1, 4)).unwrap();
    a.push(Task::new(2, 6)).unwrap();
    a.push(Task::new(2, 20)).unwrap();
    let mut b = TaskSet::new();
    b.push(Task::new(2, 6)).unwrap();
    b.push(Task::new(1, 4)).unwrap();
    b.push(Task::new(2, 20)).unwrap();
    assert_eq!(a.response_of(2), Response::Bounded(6));
    assert_eq!(b.response_of(2), Response::Bounded(6));
}

#[test]
fn more_execution_above_never_shortens_a_response() {
    let mut light = TaskSet::new();
    light.push(Task::new(100, 400)).unwrap();
    light.push(Task::new(200, 1000)).unwrap();
    let mut heavy = TaskSet::new();
    heavy.push(Task::new(150, 400)).unwrap();
    heavy.push(Task::new(200, 1000)).unwrap();
    // w = 200 → 350; w = 350 → 350.
    assert_eq!(light.response_of(1), Response::Bounded(300));
    assert_eq!(heavy.response_of(1), Response::Bounded(350));
}

#[test]
fn more_jitter_above_never_shortens_a_response() {
    let mut plain = TaskSet::new();
    plain.push(Task::new(100, 400)).unwrap();
    plain.push(Task::new(200, 2000)).unwrap();
    let mut jittered = TaskSet::new();
    jittered.push(Task::new(100, 400).jitter(300)).unwrap();
    jittered.push(Task::new(200, 2000)).unwrap();
    assert_eq!(plain.response_of(1), Response::Bounded(300));
    assert_eq!(jittered.response_of(1), Response::Bounded(400));
}

#[test]
fn a_higher_priority_never_slows_a_task() {
    let mut low = TaskSet::new();
    low.push(Task::new(100, 400)).unwrap();
    low.push(Task::new(100, 500)).unwrap();
    low.push(Task::new(400, 1000).deadline(5000)).unwrap();
    let mut raised = TaskSet::new();
    raised.push(Task::new(100, 400)).unwrap();
    raised.push(Task::new(400, 1000).deadline(5000)).unwrap();
    raised.push(Task::new(100, 500)).unwrap();
    // Below both: w = 400 → 600 → 800 → 800.
    // Below one: w = 400 → 500 → 600 → 600.
    assert_eq!(low.response_of(2), Response::Bounded(800));
    assert_eq!(raised.response_of(1), Response::Bounded(600));
}

#[test]
fn audsley_names_every_task_once_and_its_order_holds() {
    let mut s = TaskSet::new();
    s.push(Task::new(200, 1000).named("long")).unwrap();
    s.push(Task::new(10, 100).deadline(20).named("tight")).unwrap();
    s.push(Task::new(50, 400).named("mid")).unwrap();
    s.push(Task::new(5, 50).deadline(50).named("fast")).unwrap();
    let order = match s.optimal_priority_order() {
        PriorityAssignment::Found(order) => order,
        other => panic!("an ordering exists, got {other:?}"),
    };
    let mut seen = [false; 4];
    for &i in &order[..4] {
        assert!(!seen[i]);
        seen[i] = true;
    }
    assert!(order[4..].iter().all(|&x| x == 0));
    let mut applied = TaskSet::new();
    for &i in &order[..4] {
        applied.push(*s.get(i).unwrap()).unwrap();
    }
    assert!(applied.is_schedulable());
}

#[test]
fn a_refused_push_leaves_the_set_as_it_was() {
    let mut s = TaskSet::new();
    s.push(Task::new(1, 10).named("a")).unwrap();
    assert_eq!(s.push(Task::new(0, 0)), Err(Rejected::ZeroPeriod));
    assert_eq!(
        s.push(Task::new(11, 10)),
        Err(Rejected::ExecutionExceedsDeadline)
    );
    assert_eq!(s.len(), 1);
    assert_eq!(s.get(0).unwrap().name, "a");
}

#[test]
fn a_copy_of_a_set_answers_as_the_set_does() {
    let mut s = TaskSet::new();
    s.push(Task::new(100, 400)).unwrap();
    s.push(Task::new(200, 1000).blocking(20)).unwrap();
    let c = s.clone();
    assert_eq!(c.len(), 2);
    assert_eq!(c.response_of(1), s.response_of(1));
    let d = TaskSet::default();
    assert!(d.is_empty());
}

#[test]
fn task_utilisation_is_floored_parts_per_million() {
    assert_eq!(Task::new(1, 3).utilisation_ppm(), Some(333_333));
    assert_eq!(Task::new(2, 3).utilisation_ppm(), Some(666_666));
    assert_eq!(Task::new(5, 0).utilisation_ppm(), None);
    assert_eq!(Task::new(u64::MAX, 1).utilisation_ppm(), None);
}

#[test]
fn every_refusal_and_answer_reads_as_prose() {
    assert_eq!(
        AnalysisFailure::NonConvergent.describe(),
        "utilisation exceeds one; no fixed point exists"
    );
    assert_eq!(
        AnalysisFailure::IterationLimit.describe(),
        "the recurrence did not settle within the iteration cap"
    );
    assert_eq!(
        AnalysisFailure::BusyPeriodLimit.describe(),
        "the busy period is bounded but holds more jobs than the cap admits"
    );
    assert_eq!(
        AnalysisFailure::ExceedsDeadline(412).describe(),
        "converges at 412 us, past the deadline"
    );
    assert_eq!(
        AnalysisFailure::Overflow.describe(),
        "the arithmetic overflowed and was refused"
    );
    assert_eq!(AnalysisFailure::NoSuchTask.describe(), "no task at that index");
    assert_eq!(Response::Bounded(0).describe(), "0 us");
    assert_eq!(Response::Bounded(1_000_007).describe(), "1000007 us");
    assert_eq!(
        Response::Bounded(u64::MAX).describe(),
        "18446744073709551615 us"
    );
    assert_eq!(Rejected::Full.describe(), "the task set is full");
    assert_eq!(
        Rejected::ZeroPeriod.describe(),
        "a period of zero is not a period"
    );
    assert_eq!(
        Rejected::ExecutionExceedsDeadline.describe(),
        "execution time exceeds the deadline; no scheduling fixes that"
    );
}

#[test]
fn the_accessors_of_an_answer_agree() {
    let b = Response::Bounded(7);
    assert!(b.meets(7) && !b.meets(6));
    assert_eq!(b.bound(), Some(7));
    assert_eq!(b.response_time(), Some(7));
    assert!(b.is_bounded());
    assert_eq!(b.reason(), None);
    let late = Response::Refused(AnalysisFailure::ExceedsDeadline(9));
    assert!(!late.meets(u64::MAX));
    assert_eq!(late.bound(), None);
    assert_eq!(late.response_time(), Some(9));
    assert_eq!(late.reason(), Some(AnalysisFailure::ExceedsDeadline(9)));
    let none = Response::Refused(AnalysisFailure::IterationLimit);
    assert_eq!(none.response_time(), None);
    assert!(!none.is_bounded());
}

#[test]
fn the_liu_layland_precheck_needs_its_premises_and_the_bound() {
    let mut ok = TaskSet::new();
    ok.push(Task::new(10, 100)).unwrap();
    ok.push(Task::new(20, 200)).unwrap();
    assert!(ok.passes_utilisation_bound());

    let mut over = TaskSet::new();
    over.push(Task::new(50, 100)).unwrap();
    over.push(Task::new(80, 200)).unwrap();
    // 500_000 + 400_000 = 900_000 > 828_427.
    assert!(!over.passes_utilisation_bound());

    let empty = TaskSet::new();
    assert!(empty.passes_utilisation_bound());
}

#[test]
fn no_increase_past_the_sensitivity_fits() {
    let mut s = TaskSet::new();
    s.push(Task::new(100, 400)).unwrap();
    s.push(Task::new(200, 1000).deadline(400)).unwrap();
    let extra = s.max_wcet_increase(1).unwrap();
    for more in [extra, extra + 1, extra + 2, extra + 50] {
        let mut grown = TaskSet::new();
        grown.push(Task::new(100, 400)).unwrap();
        grown.push(Task::new(200 + more, 1000).deadline(400)).unwrap();
        assert_eq!(grown.is_schedulable(), more == extra);
    }
}

#[test]
fn jitter_on_every_task_at_once_never_shortens_a_response() {
    let mut calm = TaskSet::new();
    calm.push(Task::new(100, 400)).unwrap();
    calm.push(Task::new(200, 1000)).unwrap();
    let mut shaken = TaskSet::new();
    shaken.push(Task::new(100, 400).jitter(120)).unwrap();
    shaken.push(Task::new(200, 1000).jitter(10)).unwrap();
    // Calm: w = 300, R = 300. Shaken: w = 200 + ⌈(w + 120)/400⌉·100 → 300
    // → ⌈420/400⌉ = 2 → 400 → ⌈520/400⌉ = 2 → 400, R = 400 + 10 = 410.
    assert_eq!(calm.response_of(1), Response::Bounded(300));
    assert_eq!(shaken.response_of(1), Response::Bounded(410));
}

#[test]
fn names_and_the_terms_above_that_do_not_interfere_never_reach_an_answer() {
    let mut a = TaskSet::new();
    a.push(Task::new(100, 400).named("sensor")).unwrap();
    a.push(Task::new(200, 1000).blocking(20).jitter(15).named("control"))
        .unwrap();
    let mut b = TaskSet::new();
    b.push(Task::new(100, 400).blocking(90).deadline(390).named("other"))
        .unwrap();
    b.push(Task::new(200, 1000).blocking(20).jitter(15).named("renamed"))
        .unwrap();
    assert_eq!(a.response_of(1), Response::Bounded(335));
    assert_eq!(b.response_of(1), Response::Bounded(335));
}

#[test]
fn a_non_convergent_level_has_no_busy_period() {
    let mut s = TaskSet::new();
    s.push(Task::new(10, 10).jitter(1)).unwrap();
    assert_eq!(
        s.response_of(0),
        Response::Refused(AnalysisFailure::NonConvergent)
    );
    // L = ⌈(L + 1)/10⌉·10 has no positive solution.
    for l in 1..10_000u64 {
        let demand = (l + 1).div_ceil(10) * 10;
        assert_ne!(l, demand, "{l} would close the busy period");
    }
}
