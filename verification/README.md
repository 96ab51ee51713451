# Aff

An asynchronous effect runtime with a verified core.

* `src/` is the core, verified with Verus: the interpreter of fibers, parallel
  runs and races, cancellation, brackets, supervision, timers, the queue of the
  worker pool and the rules of the entry point. It does no I/O. A system of
  fibers is moved from task to task with `AffSystem::step`; what only the
  embedding program can do comes back as an `AffHostCall`.
* `app/` runs the core on threads and on Tokio, for any type that implements
  `Host`.
* `tests/` runs the core, most of it in a simulation of threads and time.

The laws of the core are the public proof functions whose names begin with
`law_`. `resources.rs` shows that every acquired resource is let go of exactly
once, `cancellation.rs` what a kill does and does not do, `ticks.rs` that a wait
is resolved at most once in the whole life of a fiber, `races.rs` how the results
of parallel branches meet, `course.rs` that a parallel run tells its result
exactly once, `evaluation.rs` that this is the value of the description where
nothing races, and `lifetime.rs` what a task can do to other fibers, what becomes
of observers that are taken back, and when the entry point may be left.
