//! How fibers come to be: by themselves, as children, and as the leaves of parallel
//! runs.
use crate::branches::AffBirth;
use crate::effect::describes;
use crate::fiber::FiberView;
use crate::layout::{planned_leaves, planned_run};
use crate::pool::PoolView;
use crate::runtime::RuntimeView;
use crate::system::SystemView;
use crate::target::{AffCallback, AffTarget};
use crate::task::AffTask;
use crate::driver::AffReply;
use crate::fault::AffFault;
use crate::machine::{AffCancel, AffRequest};
use crate::run::RunView;
use crate::util::AffUtil;
use crate::value::{AffNode, AffNodeRef, AffValue};
use vstd::prelude::*;

verus! {

/// Whether `b` is `a` with `id` among the children of this supervisor.
pub open spec fn has_joined<H>(
    a: SystemView<H>,
    b: SystemView<H>,
    supervisor: Option<usize>,
    id: usize,
) -> bool {
    &&& forall|key: usize| #[trigger]
        b.supervisors.contains_key(key) <==> a.supervisors.contains_key(key)
    &&& forall|key: usize|
        a.supervisors.contains_key(key) ==> #[trigger] b.supervisors[key] == if supervisor == Some(
            key,
        ) {
            a.supervisors[key].insert(id)
        } else {
            a.supervisors[key]
        }
}

/// A supervisor takes in a fiber and lets go of it, and nothing else changes.
pub proof fn law_supervisors_take_in_and_let_go<H>(
    system: SystemView<H>,
    supervisor: Option<usize>,
    id: usize,
)
    ensures
        ({
            let next = system.supervised(supervisor, id);
            &&& next == (SystemView { supervisors: next.supervisors, ..system })
            &&& has_joined(system, next, supervisor, id)
        }),
        ({
            let next = system.unsupervised(supervisor, id);
            &&& next == (SystemView { supervisors: next.supervisors, ..system })
            &&& forall|key: usize| #[trigger]
                next.supervisors.contains_key(key) <==> system.supervisors.contains_key(key)
            &&& forall|key: usize|
                system.supervisors.contains_key(key) ==> #[trigger] next.supervisors[key]
                    == if supervisor == Some(key) {
                    system.supervisors[key].remove(id)
                } else {
                    system.supervisors[key]
                }
        }),
{
}

/// A child is born under the next identifier, with its body, its supervisor and
/// whoever observes it from the first. A child that starts at once is registered and
/// waits in the queue for a thread, behind the fibers that came before.
pub proof fn law_child_is_born<H>(
    system: SystemView<H>,
    birth: AffBirth<H>,
    node: AffNodeRef<H>,
)
    requires
        system.runtime.next_id < usize::MAX,
    ensures
        ({
            let id = system.runtime.next_id;
            let next = system.bearing(birth, node);
            let fresh = FiberView::fresh(id, birth.util, birth.supervisor, birth.owned, node);
            let watched = match birth.observer {
                Some(callback) => fresh.observed(false, callback),
                None => fresh,
            };
            &&& next == (SystemView {
                runtime: next.runtime,
                fibers: system.fibers.insert(
                    id,
                    FiberView { started: birth.immediate, ..watched },
                ),
                supervisors: next.supervisors,
                pool: next.pool,
                ..system
            })
            &&& has_joined(system, next, birth.supervisor, id)
            &&& birth.immediate ==> next.runtime == (RuntimeView {
                next_id: (id + 1) as usize,
                fibers: system.runtime.fibers.insert(id),
                active: system.runtime.active + 1,
                ..system.runtime
            }) && next.pool == (PoolView { jobs: system.pool.jobs.push(id), ..system.pool })
            &&& !birth.immediate ==> next.runtime == (RuntimeView {
                next_id: (id + 1) as usize,
                ..system.runtime
            }) && next.pool == system.pool
        }),
{
}

/// The leaves of a run are born from left to right. Each starts at once, with its own
/// body, under the supervisor of the whole; the run observes it for its entry, and
/// the program has no handle of it.
pub proof fn law_leaves_are_born_from_left_to_right<H>(
    system: SystemView<H>,
    util: AffUtil<H>,
    supervisor: Option<usize>,
    run: usize,
    leaves: Seq<(usize, AffNodeRef<H>)>,
    entry: usize,
    node: AffNodeRef<H>,
)
    ensures
        system.bearing_leaves(util, supervisor, run, Seq::empty()) == system,
        system.bearing_leaves(util, supervisor, run, leaves.push((entry, node)))
            == system.bearing_leaves(util, supervisor, run, leaves).bearing(
            AffBirth {
                util,
                supervisor,
                owned: false,
                observer: Some(AffCallback::Deliver(AffTarget::Settle { run, entry })),
                immediate: true,
            },
            node,
        ),
{
    assert(leaves.push((entry, node)).drop_last() =~= leaves);
}

/// After all leaves have been born, the k-th of them has the k-th identifier, its own
/// body and its own entry to report to, has been started, and waits in the queue at
/// the k-th place.
pub proof fn law_every_leaf_is_born<H>(
    system: SystemView<H>,
    util: AffUtil<H>,
    supervisor: Option<usize>,
    run: usize,
    leaves: Seq<(usize, AffNodeRef<H>)>,
)
    requires
        system.runtime.next_id + leaves.len() <= usize::MAX,
    ensures
        ({
            let next = system.bearing_leaves(util, supervisor, run, leaves);
            let base = system.runtime.next_id;
            &&& next.runtime.next_id == base + leaves.len()
            &&& next.runtime.active == system.runtime.active + leaves.len()
            &&& next.runtime.natives == system.runtime.natives
            &&& next.runtime.errors == system.runtime.errors
            &&& next.pool.jobs.len() == system.pool.jobs.len() + leaves.len()
            &&& next.runs == system.runs && next.groups == system.groups
            &&& next.timers == system.timers && next.next_token == system.next_token
            &&& forall|i: int|
                0 <= i < system.pool.jobs.len() ==> #[trigger] next.pool.jobs[i]
                    == system.pool.jobs[i]
            &&& forall|id: usize|
                id < base && system.fibers.contains_key(id) ==> #[trigger] next.fibers.contains_key(
                    id,
                ) && next.fibers[id] == system.fibers[id]
            &&& forall|k: int|
                0 <= k < leaves.len() ==> is_born(
                    next,
                    (base + k) as usize,
                    (#[trigger] leaves[k]).1,
                    AffTarget::Settle { run, entry: leaves[k].0 },
                ) && next.pool.jobs[system.pool.jobs.len() + k] == base + k
        }),
    decreases leaves.len(),
{
    if leaves.len() > 0 {
        let before = leaves.drop_last();
        let middle = system.bearing_leaves(util, supervisor, run, before);
        let next = system.bearing_leaves(util, supervisor, run, leaves);
        let base = system.runtime.next_id;
        law_every_leaf_is_born(system, util, supervisor, run, before);
        law_leaves_are_born_from_left_to_right(
            system,
            util,
            supervisor,
            run,
            before,
            leaves.last().0,
            leaves.last().1,
        );
        assert(before.push(leaves.last()) =~= leaves);
        let birth = AffBirth {
            util,
            supervisor,
            owned: false,
            observer: Some(AffCallback::Deliver(AffTarget::Settle { run, entry: leaves.last().0 })),
            immediate: true,
        };
        law_child_is_born(middle, birth, leaves.last().1);
        assert forall|k: int| 0 <= k < leaves.len() implies is_born(
            next,
            (base + k) as usize,
            (#[trigger] leaves[k]).1,
            AffTarget::Settle { run, entry: leaves[k].0 },
        ) && next.pool.jobs[system.pool.jobs.len() + k] == base + k by {
            if k < before.len() {
                assert(before[k] == leaves[k]);
                assert(is_born(
                    middle,
                    (base + k) as usize,
                    before[k].1,
                    AffTarget::Settle { run, entry: before[k].0 },
                ));
            }
        }
    }
}

/// Whether a fiber with this body has been started, reports its result to `target`
/// and to nobody else, and belongs to no handle.
pub open spec fn is_born<H>(
    system: SystemView<H>,
    id: usize,
    node: AffNodeRef<H>,
    target: AffTarget<H>,
) -> bool {
    let fiber = system.fibers[id];
    &&& system.fibers.contains_key(id)
    &&& system.runtime.fibers.contains(id)
    &&& fiber.id == id
    &&& fiber.started && !fiber.running && fiber.result is None && !fiber.owned
    &&& fiber.events.len() == 0
    &&& fiber.machine is Some
    &&& fiber.machine->0.step == crate::machine::AffStep::<H>::Node(node)
    &&& fiber.machine->0.frames.len() == 0
    &&& fiber.machine->0.interrupt is None
    &&& fiber.joins.contains_key(0)
    &&& fiber.joins[0].callback == AffCallback::Deliver(target)
    &&& !fiber.joins[0].rethrow
    &&& forall|join: usize| #[trigger] fiber.joins.contains_key(join) ==> join == 0
}

/// A parallel computation is run under a token of its own: its leaves are born, the
/// run remembers their fibers and reports to the wait of the fiber that asked, which
/// can give it up as a whole. Without identifiers for all leaves it is fatal.
pub proof fn law_parallel_computation_is_run<H>(
    system: SystemView<H>,
    id: usize,
    util: AffUtil<H>,
    supervisor: Option<usize>,
    root: AffNodeRef<H>,
    tick: usize,
    now: u128,
)
    ensures
        ({
            let moved = system.performing(
                id,
                util,
                supervisor,
                AffRequest::Parallel(root, tick),
                now,
            );
            let leaves = planned_leaves(root);
            let token = system.next_token;
            let born = system.bearing_leaves(util, supervisor, token, leaves);
            if token < usize::MAX && system.runtime.next_id + system.runtime.natives + leaves.len()
                <= usize::MAX {
                &&& moved.system == (SystemView {
                    runs: born.runs.insert(
                        token,
                        RunView {
                            par: planned_run(root),
                            fibers: crate::branches::leaf_fibers(system.runtime.next_id, leaves),
                            target: AffTarget::Resolve { fiber: id, tick },
                        },
                    ),
                    next_token: (born.next_token + 1) as usize,
                    ..born
                })
                &&& crate::consequence::leads_to(
                    moved,
                    AffTask::Reply(id, AffReply::Registered(AffCancel::Parallel(token))),
                )
            } else {
                crate::consequence::breaks(system, moved, id, AffFault::Exhausted)
            }
        }),
{
}

/// A fiber that the program makes waits under the next identifier with its body;
/// nothing else changes.
pub proof fn law_fiber_is_made<H>(
    system: SystemView<H>,
    util: AffUtil<H>,
    supervisor: Option<usize>,
    node: AffNodeRef<H>,
)
    requires
        system.runtime.next_id < usize::MAX,
    ensures
        ({
            let id = system.runtime.next_id;
            system.making(util, supervisor, AffValue::Aff(node)) == (SystemView {
                runtime: RuntimeView { next_id: (id + 1) as usize, ..system.runtime },
                fibers: system.fibers.insert(
                    id,
                    FiberView::fresh(id, util, supervisor, true, node),
                ),
                ..system
            })
        }),
{
}

/// A value that describes a computation is that computation.
pub proof fn law_descriptions_are_boxed_as_they_are<H>(value: AffValue<H>, node: AffNodeRef<H>)
    ensures
        describes(AffValue::Aff(node), node.node),
        forall|other: AffNode<H>| #[trigger]
            describes(AffValue::Aff(node), other) ==> other == node.node,
        forall|other: AffNode<H>| #[trigger] describes(value, other) ==> value is Aff,
{
}

} // verus!
