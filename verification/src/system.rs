//! All fibers of one entry point, and how they act on one another.
use crate::fiber::{AffFiber, FiberView};
use crate::pool::{AffPoolQueue, AffWork, PoolView};
use crate::run::{AffRun, RunView};
use crate::runtime::{AffRuntime, RuntimeView};
use crate::supervisor::AffSupervisor;
use crate::table::AffTable;
use crate::target::AffTarget;
use crate::timer::{is_poll, AffTimerAction, AffTimerKey, AffTimers};
use crate::waiting::{AffKillMany, KillManyView};
use vstd::prelude::*;

verus! {

pub struct AffSystem<H> {
    pub runtime: AffRuntime<H>,
    pub fibers: AffTable<AffFiber<H>>,
    /// The parallel runs that have no result yet.
    pub runs: AffTable<AffRun<H>>,
    /// The waits for fibers that are killed together.
    pub groups: AffTable<AffKillMany<H>>,
    pub supervisors: AffTable<AffSupervisor>,
    pub timers: AffTimers<AffTarget<H>>,
    /// The fibers that wait for a worker.
    pub pool: AffPoolQueue<usize>,
    /// What the next run or the next group is found under.
    pub next_token: usize,
    /// The last moment that the clock can tell.
    pub horizon: u128,
}

#[verifier::ext_equal]
pub struct SystemView<H> {
    pub runtime: RuntimeView<H>,
    pub fibers: Map<usize, FiberView<H>>,
    pub runs: Map<usize, RunView<H>>,
    pub groups: Map<usize, KillManyView<H>>,
    pub supervisors: Map<usize, Set<usize>>,
    pub timers: Map<AffTimerKey, AffTarget<H>>,
    pub pool: PoolView<usize>,
    pub next_token: usize,
    pub horizon: u128,
}

impl<H> View for AffSystem<H> {
    type V = SystemView<H>;

    open spec fn view(&self) -> SystemView<H> {
        SystemView {
            runtime: self.runtime@,
            fibers: self.fibers@,
            runs: self.runs@,
            groups: self.groups@,
            supervisors: self.supervisors@,
            timers: self.timers@,
            pool: self.pool@,
            next_token: self.next_token,
            horizon: self.horizon,
        }
    }
}

impl<H> SystemView<H> {
    /// Whether the fiber under `id` fits the register.
    pub open spec fn fiber_fits(self, id: usize) -> bool {
        &&& self.fibers[id].wf()
        &&& self.fibers[id].id == id
        &&& self.fibers[id].is_linked(self.runtime)
    }

    /// Every fiber stands under its own identifier and is registered exactly as
    /// long as the entry point has to wait for it, every wait for fibers has
    /// some left to wait for, and every timer has an identifier that was handed
    /// out.
    pub open spec fn wf(self) -> bool {
        &&& self.runtime.wf()
        &&& forall|id: usize| #[trigger] self.fibers.contains_key(id) ==> self.fiber_fits(id)
        &&& forall|id: usize| #[trigger]
            self.runtime.fibers.contains(id) ==> self.fibers.contains_key(id)
        &&& forall|token: usize| #[trigger]
            self.runs.contains_key(token) ==> self.runs[token].wf()
        &&& forall|token: usize| #[trigger]
            self.groups.contains_key(token) ==> self.groups[token].remaining > 0
        &&& forall|key: AffTimerKey| #[trigger]
            self.timers.contains_key(key) ==> key.1 < self.runtime.next_id
    }

    pub open spec fn with_fiber(self, fiber: FiberView<H>) -> SystemView<H> {
        SystemView { fibers: self.fibers.insert(fiber.id, fiber), ..self }
    }

    pub open spec fn with_runtime(self, runtime: RuntimeView<H>) -> SystemView<H> {
        SystemView { runtime, ..self }
    }

    pub open spec fn with_run(self, token: usize, run: RunView<H>) -> SystemView<H> {
        SystemView { runs: self.runs.insert(token, run), ..self }
    }

    pub open spec fn without_run(self, token: usize) -> SystemView<H> {
        SystemView { runs: self.runs.remove(token), ..self }
    }

    pub open spec fn with_group(self, token: usize, group: KillManyView<H>) -> SystemView<H> {
        SystemView { groups: self.groups.insert(token, group), ..self }
    }

    pub open spec fn without_group(self, token: usize) -> SystemView<H> {
        SystemView { groups: self.groups.remove(token), ..self }
    }

    pub open spec fn with_next_token(self) -> SystemView<H> {
        SystemView { next_token: (self.next_token + 1) as usize, ..self }
    }

    pub open spec fn submitted(self, id: usize) -> SystemView<H> {
        SystemView { pool: PoolView { jobs: self.pool.jobs.push(id), ..self.pool }, ..self }
    }

    /// The system with a fiber under the supervisor, if there is one.
    pub open spec fn supervised(self, supervisor: Option<usize>, id: usize) -> SystemView<H> {
        match supervisor {
            Some(key) if self.supervisors.contains_key(key) => SystemView {
                supervisors: self.supervisors.insert(key, self.supervisors[key].insert(id)),
                ..self
            },
            _ => self,
        }
    }

    /// The system with a fiber no longer under the supervisor.
    pub open spec fn unsupervised(self, supervisor: Option<usize>, id: usize) -> SystemView<H> {
        match supervisor {
            Some(key) if self.supervisors.contains_key(key) => SystemView {
                supervisors: self.supervisors.insert(key, self.supervisors[key].remove(id)),
                ..self
            },
            _ => self,
        }
    }
}

/// A system stays well formed when one of its fibers moves on, together with
/// what the register says of that fiber.
pub proof fn lemma_fiber_moved<H>(
    system: SystemView<H>,
    fiber: FiberView<H>,
    runtime: RuntimeView<H>,
)
    requires
        system.wf(),
        runtime.wf(),
        fiber.wf(),
        fiber.is_linked(runtime),
        system.runtime.next_id <= runtime.next_id,
        forall|id: usize|
            id != fiber.id ==> runtime.fibers.contains(id) == system.runtime.fibers.contains(id),
    ensures
        system.with_runtime(runtime).with_fiber(fiber).wf(),
{
    let next = system.with_runtime(runtime).with_fiber(fiber);
    assert forall|id: usize| #[trigger] next.fibers.contains_key(id) implies next.fiber_fits(
        id,
    ) by {
        if id != fiber.id {
            assert(system.fibers.contains_key(id));
            assert(system.fiber_fits(id));
        }
    }
}

impl<H> AffSystem<H> {
    /// A system without fibers. Moments are counted in nanoseconds since some
    /// beginning; `horizon` is the last one that the clock can tell.
    pub fn new(horizon: u128) -> (system: AffSystem<H>)
        ensures
            system@ == (SystemView::<H> {
                runtime: RuntimeView {
                    next_id: 1,
                    active: 0,
                    fibers: Set::empty(),
                    errors: Map::empty(),
                    panicked: false,
                    natives: 0,
                },
                fibers: Map::empty(),
                runs: Map::empty(),
                groups: Map::empty(),
                supervisors: Map::empty(),
                timers: Map::empty(),
                pool: PoolView { jobs: Seq::empty(), stop: false },
                next_token: 0,
                horizon,
            }),
            system@.wf(),
    {
        AffSystem {
            runtime: AffRuntime::new(),
            fibers: AffTable::new(),
            runs: AffTable::new(),
            groups: AffTable::new(),
            supervisors: AffTable::new(),
            timers: AffTimers::new(),
            pool: AffPoolQueue::new(),
            next_token: 0,
            horizon,
        }
    }

    /// Puts a fiber under a supervisor.
    pub fn supervise(&mut self, supervisor: Option<usize>, id: usize)
        requires
            old(self)@.wf(),
        ensures
            final(self)@ == old(self)@.supervised(supervisor, id),
            final(self)@.wf(),
    {
        if let Some(key) = supervisor {
            if let Some(mut members) = self.supervisors.take(key) {
                members.register(id);
                self.supervisors.put(key, members);
                assert(self@.supervisors =~= old(self)@.supervised(supervisor, id).supervisors);
            } else {
                assert(self@.supervisors =~= old(self)@.supervisors);
            }
        }
    }

    /// Takes a fiber from under a supervisor.
    pub fn unsupervise(&mut self, supervisor: Option<usize>, id: usize)
        requires
            old(self)@.wf(),
        ensures
            final(self)@ == old(self)@.unsupervised(supervisor, id),
            final(self)@.wf(),
    {
        if let Some(key) = supervisor {
            if let Some(mut members) = self.supervisors.take(key) {
                members.release(id);
                self.supervisors.put(key, members);
                assert(self@.supervisors =~= old(self)@.unsupervised(supervisor, id).supervisors);
            } else {
                assert(self@.supervisors =~= old(self)@.supervisors);
            }
        }
    }
}

/// A system whose fibers and register are those of a well-formed one.
pub proof fn lemma_same_fibers<H>(before: SystemView<H>, after: SystemView<H>)
    requires
        before.wf(),
        after.fibers == before.fibers,
        after.runtime == before.runtime,
    ensures
        forall|id: usize| #[trigger] after.fibers.contains_key(id) ==> after.fiber_fits(id),
{
    assert forall|id: usize| #[trigger] after.fibers.contains_key(id) implies after.fiber_fits(
        id,
    ) by {
        assert(before.fiber_fits(id));
    }
}

impl<H> AffSystem<H> {
    /// Puts a fiber back that was taken out and has moved on.
    pub(crate) fn put_fiber(&mut self, fiber: AffFiber<H>, Ghost(before): Ghost<SystemView<H>>)
        requires
            before.wf(),
            old(self)@ == (SystemView {
                fibers: before.fibers.remove(fiber.id),
                runtime: old(self)@.runtime,
                ..before
            }),
            old(self)@.runtime.wf(),
            fiber@.wf(),
            fiber@.is_linked(old(self)@.runtime),
            before.runtime.next_id <= old(self)@.runtime.next_id,
            forall|id: usize|
                id != fiber.id ==> old(self)@.runtime.fibers.contains(id)
                    == before.runtime.fibers.contains(id),
        ensures
            final(self)@ == before.with_runtime(old(self)@.runtime).with_fiber(fiber@),
            final(self)@.wf(),
    {
        let ghost runtime = self@.runtime;
        let ghost moved = fiber@;
        let id: usize = fiber.id;
        self.fibers.put(id, fiber);
        proof {
            lemma_fiber_moved(before, moved, runtime);
            assert(self@ =~= before.with_runtime(runtime).with_fiber(moved));
        }
    }

    /// Submits a fiber to the pool.
    pub(crate) fn submit(&mut self, id: usize)
        requires
            old(self)@.wf(),
        ensures
            final(self)@ == old(self)@.submitted(id),
            final(self)@.wf(),
    {
        self.pool.submit(id);
        proof {
            lemma_same_fibers(old(self)@, self@);
            assert(self@ =~= old(self)@.submitted(id));
        }
    }
}

/// A system stays well formed when something else than the register changes in
/// its runtime.
pub proof fn lemma_runtime_moved<H>(system: SystemView<H>, runtime: RuntimeView<H>)
    requires
        system.wf(),
        runtime.wf(),
        runtime.fibers == system.runtime.fibers,
        system.runtime.next_id <= runtime.next_id,
    ensures
        system.with_runtime(runtime).wf(),
{
    let next = system.with_runtime(runtime);
    assert forall|id: usize| #[trigger] next.fibers.contains_key(id) implies next.fiber_fits(
        id,
    ) by {
        assert(system.fiber_fits(id));
    }
}

impl<H> SystemView<H> {
    /// The system once the program has let go of the handle of fiber `id`. A
    /// fiber that is not active then is gone; an active one stays until its
    /// observers have been told of its end.
    pub open spec fn released(self, id: usize) -> SystemView<H> {
        if !self.fibers.contains_key(id) {
            self
        } else if self.runtime.fibers.contains(id) {
            self.with_fiber(FiberView { owned: false, ..self.fibers[id] })
        } else {
            SystemView { fibers: self.fibers.remove(id), ..self }
        }
    }
}

impl<H> AffSystem<H> {
    /// Lets go of the handle of a fiber.
    pub fn release(&mut self, id: usize)
        requires
            old(self)@.wf(),
        ensures
            final(self)@ == old(self)@.released(id),
            final(self)@.wf(),
    {
        let ghost before = self@;
        match self.fibers.take(id) {
            Some(mut fiber) => {
                assert(before.fiber_fits(id));
                if self.runtime.is_registered(id) {
                    fiber.owned = false;
                    self.put_fiber(fiber, Ghost(before));
                } else {
                    assert forall|other: usize| #[trigger] self@.fibers.contains_key(
                        other,
                    ) implies self@.fiber_fits(other) by {
                        assert(before.fiber_fits(other));
                    }
                }
            },
            None => {
                assert(self@ =~= before);
            },
        }
    }

    /// Lets go of a supervisor.
    pub fn dismiss(&mut self, supervisor: usize)
        requires
            old(self)@.wf(),
        ensures
            final(self)@ == (SystemView {
                supervisors: old(self)@.supervisors.remove(supervisor),
                ..old(self)@
            }),
            final(self)@.wf(),
    {
        let _ = self.supervisors.take(supervisor);
        proof {
            lemma_same_fibers(old(self)@, self@);
        }
    }

    /// What the timer loop has to do at `now`.
    pub fn poll_timers(&mut self, now: u128) -> (action: AffTimerAction<AffTarget<H>>)
        requires
            old(self)@.wf(),
        ensures
            is_poll(old(self)@.timers, now, action, final(self)@.timers),
            final(self)@ == (SystemView { timers: final(self)@.timers, ..old(self)@ }),
            final(self)@.wf(),
    {
        let action: AffTimerAction<AffTarget<H>> = self.timers.poll(now);
        proof {
            lemma_same_fibers(old(self)@, self@);
            assert forall|key: AffTimerKey| #[trigger] self@.timers.contains_key(key) implies key.1
                < self@.runtime.next_id by {
                assert(old(self)@.timers.contains_key(key));
            }
        }
        action
    }

    /// What a worker that looks for work has to do.
    pub fn work(&mut self) -> (work: AffWork<usize>)
        requires
            old(self)@.wf(),
        ensures
            (final(self)@.pool, work) == old(self)@.pool.working(),
            final(self)@ == (SystemView { pool: final(self)@.pool, ..old(self)@ }),
            final(self)@.wf(),
    {
        let work: AffWork<usize> = self.pool.work();
        proof {
            lemma_same_fibers(old(self)@, self@);
        }
        work
    }

    /// Tells the pool to stop.
    pub fn shut_down(&mut self)
        requires
            old(self)@.wf(),
        ensures
            final(self)@ == (SystemView {
                pool: PoolView { jobs: Seq::empty(), stop: true },
                ..old(self)@
            }),
            final(self)@.wf(),
    {
        self.pool.shut_down();
        proof {
            lemma_same_fibers(old(self)@, self@);
        }
    }
}

} // verus!
