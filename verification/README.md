# dy_wcet

Response-time analysis for fixed-priority preemptive task sets, with every
answer proved against its mathematical statement by Verus.

A `TaskSet` holds up to sixteen tasks, highest priority first. For each task
the analysis iterates the busy-period and per-job window recurrences with
release jitter and blocking, and answers with a bound at or below the
deadline, or with the reason there is none: a finite response past the
deadline, utilisation above one (or exactly one with jitter or blocking), an
iteration or busy-period cap, refused overflow, or an index that names no
task. Audsley's priority search tells a level where every candidate was
shown to miss from one where a candidate was only declined by a cap.

Layout of `src/`:

- `task.rs`, `response.rs`, `text.rs`: the task, the answer types (including
  the outcome of the priority search) and their prose.
- `exact.rs`, `wide.rs`: utilisation as an exact fraction, for the Liu and
  Layland pre-check, which a floored sum must not decide; its numbers are
  held in limbs as wide as the product of the periods needs.
- `table.rs`: each entry of the Liu and Layland table checked to be the
  floor of `n·(2^(1/n) − 1)·10⁶`.
- `model.rs`: the analysis as spec functions (sums, ceilings, the two
  recurrences, their fuelled solutions, the worst job, Audsley's search) and
  the lemmas about them.
- `taskset.rs`: the executable analysis, each method proved equal to the
  model.
- `symmetry.rs`, `monotone.rs`, `assignment.rs`: order independence,
  monotonicity and the facts behind Audsley's assignment.
- `laws.rs`: the properties promised of the analysis as a whole, as public
  proof functions.

`tests/` runs the analysis on concrete sets; `app/` gives the answers
`Display` for `std` programs.
