//! Children of fibers, and the branches of parallel runs.
use crate::driver::AffReply;
use crate::fault::AffFault;
use crate::fiber::{AffFiber, FiberView};
use crate::killing::aff_kill_many;
use crate::layout::{lay_out, lemma_every_leaf_is_planned, planned_leaves, planned_run};
use crate::machine::AffCancel;
use crate::moved::Moved;
use crate::parallel::{lemma_settle_shape, pending_leaves, AffParAction, ParActionView};
use crate::run::{lemma_run_keeps_fibers, AffRun, RunView};
use crate::system::{lemma_same_fibers, AffSystem, SystemView};
use crate::target::{AffCallback, AffNotice, AffTarget};
use crate::task::{AffHostCall, AffTask};
use crate::util::AffUtil;
use crate::value::{AffNodeRef, AffResult, AffValue};
use std::collections::VecDeque;
use vstd::prelude::*;

verus! {

impl<H> SystemView<H> {
    /// Gives the entry of a run its result. Results for a run that is over
    /// change nothing.
    pub open spec fn settling(self, token: usize, entry: usize, result: AffResult<H>) -> Moved<H> {
        if self.runs.contains_key(token) && entry < self.runs[token].par.entries.len() {
            let run = self.runs[token];
            let (par, action) = run.par.settle(entry, result);
            let next = self.with_run(token, RunView { par, ..run });
            match action {
                ParActionView::Done(outcome) => self.without_run(token).leading_to(
                    seq![AffTask::Tell(AffNotice { target: run.target, result: outcome })],
                ),
                ParActionView::Wait => next.leading_to(seq![]),
                ParActionView::Call { entry, function, argument } => next.asking(
                    AffHostCall::Call { run: token, entry, function, argument },
                ),
                ParActionView::Kill { entry, leaves, outcome } => next.killing(
                    run.fibers_of(leaves),
                    AffValue::Fault(AffFault::EarlyExit),
                    AffTarget::Outcome { run: token, entry, outcome },
                ),
            }
        } else {
            self.leading_to(seq![])
        }
    }
}

/// How a child fiber comes to be.
pub struct AffBirth<H> {
    pub util: AffUtil<H>,
    pub supervisor: Option<usize>,
    /// Whether the embedding program gets a handle.
    pub owned: bool,
    /// Who observes the fiber from the beginning.
    pub observer: Option<AffCallback<H>>,
    /// Whether it is submitted to the pool at once.
    pub immediate: bool,
}

impl<H> SystemView<H> {
    /// The system with one more fiber under its supervisor.
    pub open spec fn bearing(self, birth: AffBirth<H>, node: AffNodeRef<H>) -> SystemView<H> {
        let id = self.runtime.next_id;
        let child = birth.child(id, node);
        let runtime = self.runtime.with_next_id();
        if birth.immediate {
            self.with_runtime(runtime.entered(id)).with_fiber(child.begun()).supervised(
                birth.supervisor,
                id,
            ).submitted(id)
        } else {
            self.with_runtime(runtime).with_fiber(child).supervised(birth.supervisor, id)
        }
    }

    /// The system with fibers for all these leaves of a run.
    pub open spec fn bearing_leaves(
        self,
        util: AffUtil<H>,
        supervisor: Option<usize>,
        run: usize,
        leaves: Seq<(usize, AffNodeRef<H>)>,
    ) -> SystemView<H>
        decreases leaves.len(),
    {
        if leaves.len() == 0 {
            self
        } else {
            self.bearing_leaves(util, supervisor, run, leaves.drop_last()).bearing(
                AffBirth::leaf(util, supervisor, run, leaves.last().0),
                leaves.last().1,
            )
        }
    }
}

/// The fibers of these leaves, when the first one gets the identifier `base`.
pub open spec fn leaf_fibers<H>(base: usize, leaves: Seq<(usize, AffNodeRef<H>)>) -> Map<usize, usize>
    decreases leaves.len(),
{
    if leaves.len() == 0 {
        Map::empty()
    } else {
        leaf_fibers(base, leaves.drop_last()).insert(
            leaves.last().0,
            (base + leaves.len() - 1) as usize,
        )
    }
}

impl<H> SystemView<H> {
    /// Whether a parallel run of `root` can be found under a token, and each of
    /// its leaves under an identifier.
    pub open spec fn can_run(self, root: AffNodeRef<H>) -> bool {
        self.next_token < usize::MAX && self.runtime.has_room_for(planned_leaves(root).len())
    }

    /// The system with a parallel run of `root`. All leaves are observed by the
    /// run and wait for a worker.
    pub open spec fn running(
        self,
        util: AffUtil<H>,
        supervisor: Option<usize>,
        root: AffNodeRef<H>,
        target: AffTarget<H>,
    ) -> SystemView<H> {
        let leaves = planned_leaves(root);
        self.bearing_leaves(util, supervisor, self.next_token, leaves).with_run(
            self.next_token,
            RunView {
                par: planned_run(root),
                fibers: leaf_fibers(self.runtime.next_id, leaves),
                target,
            },
        ).with_next_token()
    }

    /// The fibers of a run whose results have not come in. A run that is over
    /// has none.
    pub open spec fn pending_fibers(self, run: usize) -> Seq<usize> {
        if self.runs.contains_key(run) {
            self.runs[run].fibers_of(pending_leaves(self.runs[run].par.entries, 0))
        } else {
            seq![]
        }
    }

    /// Stops a run for good, kills its fibers and lets fiber `id` wait for
    /// their end.
    pub open spec fn halting(self, id: usize, tick: usize, run: usize, error: AffValue<H>) -> Moved<H> {
        let victims = self.pending_fibers(run);
        let kill = self.without_run(run).killing(
            victims,
            error,
            AffTarget::Resolve { fiber: id, tick },
        );
        let cancel = if victims.len() == 0 {
            AffCancel::Nothing
        } else {
            AffCancel::Killing(self.next_token)
        };
        Moved { tasks: seq![AffTask::Reply(id, AffReply::Registered(cancel))] + kill.tasks, ..kill }
    }
}

impl<H> AffSystem<H> {
    /// Gives the entry of a run its result.
    pub(crate) fn settle(
        &mut self,
        token: usize,
        entry: usize,
        result: AffResult<H>,
        agenda: &mut Vec<AffTask<H>>,
    ) -> (call: Option<AffHostCall<H>>)
        requires
            old(self)@.wf(),
        ensures
            final(self)@ == old(self)@.settling(token, entry, result).system,
            final(agenda)@ == old(agenda)@ + old(self)@.settling(token, entry, result).tasks,
            call == old(self)@.settling(token, entry, result).call,
            final(self)@.wf(),
    {
        let ghost before = self@;
        let mut run: AffRun<H> = match self.runs.take(token) {
            Some(run) => run,
            None => {
                assert(self@ =~= before);
                return None;
            },
        };
        let ghost seen = run@;
        assert(before.runs[token].wf());
        if entry >= run.par.entries.len() {
            self.runs.put(token, run);
            assert(self@ =~= before);
            return None;
        }
        proof {
            lemma_settle_shape(run.par@, entry, result);
            lemma_run_keeps_fibers(run@, run.par@.settle(entry, result).0);
        }
        let action: AffParAction<H> = run.par.settle(entry, result);
        let ghost next = before.with_run(token, run@);
        proof {
            assert(run@ == (RunView { par: run.par@, ..seen }));
            lemma_same_fibers(before, next);
            assert(next.wf());
            lemma_same_fibers(before, before.without_run(token));
        }
        match action {
            AffParAction::Done(outcome) => {
                agenda.push(AffTask::Tell(AffNotice { target: run.target, result: outcome }));
                assert(self@ =~= before.without_run(token));
                None
            },
            AffParAction::Wait => {
                self.runs.put(token, run);
                assert(self@ =~= next);
                None
            },
            AffParAction::Call { entry, function, argument } => {
                self.runs.put(token, run);
                assert(self@ =~= next);
                Some(AffHostCall::Call { run: token, entry, function, argument })
            },
            AffParAction::Kill { entry, leaves, outcome } => {
                let victims: VecDeque<usize> = run.fibers_of(&leaves);
                proof {
                    lemma_fibers_of_same(run@, seen, leaves@);
                }
                self.runs.put(token, run);
                assert(self@ =~= next);
                aff_kill_many(
                    self,
                    victims,
                    AffValue::Fault(AffFault::EarlyExit),
                    AffTarget::Outcome { run: token, entry, outcome },
                    agenda,
                )
            },
        }
    }
}

/// Which fibers belong to which leaves does not depend on the results.
proof fn lemma_fibers_of_same<H>(a: RunView<H>, b: RunView<H>, leaves: Seq<usize>)
    requires
        a.fibers == b.fibers,
    ensures
        a.fibers_of(leaves) == b.fibers_of(leaves),
    decreases leaves.len(),
{
    if leaves.len() > 0 {
        lemma_fibers_of_same(a, b, leaves.drop_last());
    }
}

impl<H> AffBirth<H> {
    /// The child, not started yet.
    pub open spec fn child(self, id: usize, node: AffNodeRef<H>) -> FiberView<H> {
        let fresh = FiberView::fresh(id, self.util, self.supervisor, self.owned, node);
        match self.observer {
            Some(callback) => fresh.observed(false, callback),
            None => fresh,
        }
    }

    /// The birth of the leaf at this entry of a run.
    pub open spec fn leaf(util: AffUtil<H>, supervisor: Option<usize>, run: usize, entry: usize) -> AffBirth<
        H,
    > {
        AffBirth {
            util,
            supervisor,
            owned: false,
            observer: Some(AffCallback::Deliver(AffTarget::Settle { run, entry })),
            immediate: true,
        }
    }
}

proof fn lemma_leaf_fibers<H>(base: usize, leaves: Seq<(usize, AffNodeRef<H>)>)
    ensures
        forall|j: int|
            0 <= j < leaves.len() ==> leaf_fibers(base, leaves).contains_key(
                (#[trigger] leaves[j]).0,
            ),
    decreases leaves.len(),
{
    if leaves.len() > 0 {
        let before = leaves.drop_last();
        lemma_leaf_fibers(base, before);
        assert forall|j: int| 0 <= j < leaves.len() implies leaf_fibers(base, leaves).contains_key(
            (#[trigger] leaves[j]).0,
        ) by {
            if j < before.len() {
                assert(before[j] == leaves[j]);
            }
        }
    }
}

impl<H> AffSystem<H> {
    /// Makes a child fiber.
    pub(crate) fn bear(&mut self, birth: AffBirth<H>, node: AffNodeRef<H>) -> (id: usize)
        requires
            old(self)@.wf(),
            old(self)@.runtime.has_room(),
        ensures
            id == old(self)@.runtime.next_id,
            final(self)@ == old(self)@.bearing(birth, node),
            final(self)@.wf(),
    {
        let ghost before = self@;
        let supervisor: Option<usize> = birth.supervisor;
        let mut child: AffFiber<H> = AffFiber::new(
            &mut self.runtime,
            birth.util,
            supervisor,
            birth.owned,
            node,
        );
        let id: usize = child.id;
        proof {
            if before.fibers.contains_key(id) {
                assert(before.fiber_fits(id));
            }
            assert(!before.fibers.contains_key(id));
        }
        if let Some(callback) = birth.observer {
            let _ = child.observe(&mut self.runtime, false, callback);
        }
        if birth.immediate {
            let _ = child.begin(&mut self.runtime);
        }
        assert(self@.fibers =~= before.fibers.remove(id));
        self.put_fiber(child, Ghost(before));
        self.supervise(supervisor, id);
        if birth.immediate {
            self.submit(id);
        }
        id
    }
}

/// What making fibers for the leaves of a run leaves as it was.
proof fn lemma_bearing_frame<H>(
    system: SystemView<H>,
    util: AffUtil<H>,
    supervisor: Option<usize>,
    run: usize,
    leaves: Seq<(usize, AffNodeRef<H>)>,
)
    requires
        system.runtime.has_room_for(leaves.len()),
    ensures
        ({
            let next = system.bearing_leaves(util, supervisor, run, leaves);
            &&& next.runtime.next_id == system.runtime.next_id + leaves.len()
            &&& next.runtime.natives == system.runtime.natives
            &&& next.next_token == system.next_token
        }),
    decreases leaves.len(),
{
    if leaves.len() > 0 {
        lemma_bearing_frame(system, util, supervisor, run, leaves.drop_last());
    }
}

/// Starts a parallel run. Every leaf is observed before any of them runs, so
/// that a branch that decides the outcome can still stop the others.
pub fn aff_run_parallel<H>(
    system: &mut AffSystem<H>,
    util: AffUtil<H>,
    supervisor: Option<usize>,
    root: AffNodeRef<H>,
    target: AffTarget<H>,
) -> (token: Option<usize>)
    requires
        old(system)@.wf(),
    ensures
        token == if old(system)@.can_run(root) {
            Some(old(system)@.next_token)
        } else {
            None
        },
        final(system)@ == if old(system)@.can_run(root) {
            old(system)@.running(util, supervisor, root, target)
        } else {
            old(system)@
        },
        final(system)@.wf(),
{
    let ghost before = system@;
    let token: usize = system.next_token;
    if token == usize::MAX {
        return None;
    }
    let ghost shared = root;
    let (par, leaves) = lay_out(root);
    if !system.runtime.has_room_for(leaves.len()) {
        return None;
    }
    let mut run: AffRun<H> = AffRun::new(par, target);
    let mut i: usize = 0;
    assert(leaves@.take(0) =~= seq![]);
    while i < leaves.len()
        invariant
            i <= leaves.len(),
            system@.wf(),
            before.runtime.has_room_for(leaves@.len()),
            before.next_token == token,
            system@ == before.bearing_leaves(util, supervisor, token, leaves@.take(i as int)),
            run@ == (RunView {
                par: par@,
                fibers: leaf_fibers(before.runtime.next_id, leaves@.take(i as int)),
                target,
            }),
        decreases leaves.len() - i,
    {
        proof {
            assert(leaves@.take(i + 1).drop_last() =~= leaves@.take(i as int));
            lemma_bearing_frame(before, util, supervisor, token, leaves@.take(i as int));
        }
        let entry: usize = leaves[i].0;
        let birth: AffBirth<H> = AffBirth {
            util: util.clone(),
            supervisor,
            owned: false,
            observer: Some(AffCallback::Deliver(AffTarget::Settle { run: token, entry })),
            immediate: true,
        };
        let id: usize = system.bear(birth, leaves[i].1.clone());
        run.place(entry, id);
        i = i + 1;
    }
    proof {
        assert(leaves@.take(i as int) =~= leaves@);
        lemma_bearing_frame(before, util, supervisor, token, leaves@);
    }
    let ghost here = system@;
    let ghost laid = run@;
    system.next_token = token + 1;
    system.runs.put(token, run);
    proof {
        lemma_leaf_fibers(before.runtime.next_id, leaves@);
        assert forall|i: int|
            0 <= i < laid.par.entries.len() && (
            #[trigger] laid.par.entries[i]).kind is Leaf implies laid.fibers.contains_key(
            i as usize,
        ) by {
            let j = lemma_every_leaf_is_planned(&shared, i);
            assert(laid.fibers.contains_key(leaves@[j].0));
        }
        lemma_same_fibers(here, system@);
        assert(system@ =~= before.running(util, supervisor, shared, target));
    }
    Some(token)
}

impl<H> AffSystem<H> {
    /// Stops a run and lets fiber `id` wait for the end of its fibers.
    pub(crate) fn halt(
        &mut self,
        id: usize,
        tick: usize,
        run: usize,
        error: AffValue<H>,
        agenda: &mut Vec<AffTask<H>>,
    ) -> (call: Option<AffHostCall<H>>)
        requires
            old(self)@.wf(),
        ensures
            final(self)@ == old(self)@.halting(id, tick, run, error).system,
            final(agenda)@ == old(agenda)@ + old(self)@.halting(id, tick, run, error).tasks,
            call == old(self)@.halting(id, tick, run, error).call,
            final(self)@.wf(),
    {
        let ghost before = self@;
        let victims: VecDeque<usize> = match self.runs.take(run) {
            Some(mut stopped) => {
                assert(before.runs[run].wf());
                let ghost seen = stopped@;
                let leaves: Vec<usize> = stopped.par.cancel();
                let victims: VecDeque<usize> = stopped.fibers_of(&leaves);
                proof {
                    lemma_fibers_of_same(stopped@, seen, leaves@);
                }
                victims
            },
            None => VecDeque::new(),
        };
        let ghost here = self@;
        proof {
            assert(victims@ =~= before.pending_fibers(run));
            assert(here =~= before.without_run(run));
            lemma_same_fibers(before, here);
            assert(here.wf());
        }
        let cancel: AffCancel<H> = if victims.len() == 0 {
            AffCancel::Nothing
        } else {
            AffCancel::Killing(self.next_token)
        };
        agenda.push(AffTask::Reply(id, AffReply::Registered(cancel)));
        let call: Option<AffHostCall<H>> = aff_kill_many(
            self,
            victims,
            error,
            AffTarget::Resolve { fiber: id, tick },
            agenda,
        );
        assert(agenda@ =~= old(agenda)@ + before.halting(id, tick, run, error).tasks);
        call
    }
}

} // verus!
