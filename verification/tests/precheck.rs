//! The Liu and Layland pre-check, and the preconditions it depends on.

use dy_wcet::{AnalysisFailure, Response, Task, TaskSet};

/// ```text
/// hi (10, 100) D = T          lo (20, 200) D = 25
/// U = 0.1 + 0.1 = 0.2, against the two-task bound of 0.828427
/// R(1): w = 20 → 20 + ⌈20/100⌉·10 = 30 → 30 + ⌈30/100⌉·10 = 30   R = 30 > 25
/// ```
/// Rate-monotonic, a fifth of the bound, and it misses. The only Liu and
/// Layland condition broken is `D = T`, which the bound also requires.
#[test]
fn a_constrained_deadline_is_outside_the_bound_and_the_precheck_says_so() {
    let mut s = TaskSet::new();
    s.push(Task::new(10, 100)).unwrap();
    s.push(Task::new(20, 200).deadline(25)).unwrap();

    assert_eq!(s.utilisation_ppm(), Some(200_000));
    assert!(s.utilisation_ppm().unwrap() < TaskSet::liu_layland_bound_ppm(2));
    assert_eq!(
        s.response_of(1),
        Response::Refused(AnalysisFailure::ExceedsDeadline(30))
    );
    assert!(!s.is_schedulable());
    assert!(
        !s.passes_utilisation_bound(),
        "the bound must not claim a set it does not cover"
    );
}

/// Priorities the caller got backwards are outside the theorem too.
#[test]
fn a_set_that_is_not_rate_monotonic_is_outside_the_bound() {
    let mut s = TaskSet::new();
    s.push(Task::new(40, 200)).unwrap();
    s.push(Task::new(10, 100)).unwrap();
    assert!(!s.passes_utilisation_bound());
}

/// Blocking and jitter are outside it as well: neither appears in the theorem.
#[test]
fn blocking_and_jitter_are_outside_the_bound() {
    let mut s = TaskSet::new();
    s.push(Task::new(10, 100).blocking(5)).unwrap();
    s.push(Task::new(10, 200)).unwrap();
    assert!(!s.passes_utilisation_bound());
}

/// What the bound does cover still passes.
#[test]
fn an_implicit_deadline_rate_monotonic_set_under_the_bound_passes() {
    let mut s = TaskSet::new();
    s.push(Task::new(10, 100)).unwrap();
    s.push(Task::new(20, 200)).unwrap();
    assert!(s.passes_utilisation_bound());
    assert!(s.is_schedulable());
}

/// Every entry is the floor of `n·(2^(1/n) − 1)`, never the rounding of it.
/// A bound rounded up admits a set the theorem does not cover, which is the
/// flattering direction.
#[test]
fn the_bound_table_is_floored_and_never_rounded_up() {
    // floor(n·(2^(1/n) − 1)·10⁶), computed to forty digits offline
    const TRUE_FLOOR: [u64; 17] = [
        1_000_000, 1_000_000, 828_427, 779_763, 756_828, 743_491, 734_772, 728_626, 724_061,
        720_537, 717_734, 715_451, 713_557, 711_958, 710_592, 709_411, 708_380,
    ];
    for (n, &floor) in TRUE_FLOOR.iter().enumerate() {
        assert_eq!(
            TaskSet::liu_layland_bound_ppm(n),
            floor,
            "bound for n = {n} is not the floor of the true value"
        );
    }
    // past the table the fallback is ln 2, floored
    assert_eq!(TaskSet::liu_layland_bound_ppm(17), 693_147);
}

/// C=2/T=7 with C=108/T=199 has a true utilisation of 828 427.85 ppm
/// against a two-task bound of 828 427, and the floored figures sum to
/// exactly 828 427. A sufficient condition must not be granted by a floor.
#[test]
fn the_liu_layland_precheck_is_not_decided_by_rounding() {
    let mut s = TaskSet::new();
    s.push(Task::new(2, 7)).unwrap();
    s.push(Task::new(108, 199)).unwrap();
    assert_eq!(s.utilisation_ppm(), Some(828_427));
    assert!(
        !s.passes_utilisation_bound(),
        "true utilisation is 828427.85 ppm against a bound of 828427; a \
         sufficient condition must not be granted by a floor"
    );

    // A second set from the same search, to show the first was not a one-off.
    let mut t = TaskSet::new();
    t.push(Task::new(8, 13)).unwrap();
    t.push(Task::new(49, 230)).unwrap();
    assert!(!t.passes_utilisation_bound());

    // And a set comfortably under the bound still passes.
    let mut u = TaskSet::new();
    u.push(Task::new(1, 4)).unwrap();
    u.push(Task::new(1, 4)).unwrap();
    assert!(u.passes_utilisation_bound());
}

/// Where the floored sum sits within one part per million per rounded task
/// of the bound, the exact sum decides, and here it is just inside:
/// 2/19 + 128/177 = 828 426.9997 ppm against 828 427.
#[test]
fn an_exact_sum_just_inside_the_bound_passes() {
    let mut s = TaskSet::new();
    s.push(Task::new(2, 19)).unwrap();
    s.push(Task::new(128, 177)).unwrap();
    assert_eq!(s.utilisation_ppm(), Some(828_426));
    assert!(s.passes_utilisation_bound());
}

/// Three tasks whose periods multiply past `u128`: the floored sum
/// (779 761) is within three parts per million of the three-task bound
/// (779 763), so only the exact sum, 779 761.7 ppm, can settle it, and it is
/// inside.
#[test]
fn the_exact_comparison_holds_past_every_machine_word() {
    let period = 35_184_372_088_833;
    let mut s = TaskSet::new();
    s.push(Task::new(9_145_129_030_203, period)).unwrap();
    s.push(Task::new(9_145_129_030_203, period)).unwrap();
    s.push(Task::new(9_145_167_733_013, period)).unwrap();
    assert_eq!(s.utilisation_ppm(), Some(779_761));
    assert!(s.passes_utilisation_bound());

    // 45.8 ms more on the last task takes the exact sum to 779 763.0017 ppm,
    // just past the bound, while the floored sum reads 779 762.
    let mut over = TaskSet::new();
    over.push(Task::new(9_145_129_030_203, period)).unwrap();
    over.push(Task::new(9_145_129_030_203, period)).unwrap();
    over.push(Task::new(9_145_167_733_013 + 45_800_000, period)).unwrap();
    assert_eq!(over.utilisation_ppm(), Some(779_762));
    assert!(!over.passes_utilisation_bound());
}

/// The small entries of the table are the floor of `n·(2^(1/n) − 1)·10⁶`:
/// `(b + n·10⁶)ⁿ ≤ 2·(n·10⁶)ⁿ < (b + 1 + n·10⁶)ⁿ`, checked where `u128` holds
/// the powers.
#[test]
fn the_small_table_entries_are_floored_bounds() {
    for n in 1..=5u32 {
        let b = TaskSet::liu_layland_bound_ppm(n as usize) as u128;
        let scale = n as u128 * 1_000_000;
        assert!((b + scale).pow(n) <= 2 * scale.pow(n), "entry {n} is too high");
        assert!(2 * scale.pow(n) < (b + 1 + scale).pow(n), "entry {n} is too low");
    }
}
