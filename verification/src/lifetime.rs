//! What a task can and cannot do to the fibers of a system, and when the entry
//! point may be left.
use crate::branches::AffBirth;
use crate::cancellation::law_killed_before_start_never_runs;
use crate::driver::{AffReply, DriveView, TurnView};
use crate::entry::AffExit;
use crate::fiber::FiberView;
use crate::killing::{has_observer, without_observers};
use crate::layout::planned_leaves;
use crate::machine::{AffCancel, AffEvent, AffRequest, MachineView};
use crate::moved::word;
use crate::ordered::{is_first, lemma_least, lemma_listing_exists, listing, lists};
use crate::record::AffFiberCall;
use crate::runtime::RuntimeView;
use crate::system::SystemView;
use crate::target::{AffCallback, AffTarget};
use crate::task::{AffHostCall, AffTask};
use crate::timer::{is_next, is_poll, not_after, AffTimerAction, AffTimerKey};
use crate::util::AffUtil;
use crate::value::{AffNodeRef, AffResult, AffValue};
use vstd::prelude::*;

verus! {

/// The fiber that a task is about.
pub open spec fn subject<H>(system: SystemView<H>, task: AffTask<H>) -> Option<usize> {
    match task {
        AffTask::Drive(id) => Some(id),
        AffTask::Reply(id, _) => Some(id),
        AffTask::Notify(id) => Some(id),
        AffTask::Panicked(id) => Some(id),
        AffTask::Tell(notice) => match notice.target {
            AffTarget::Resolve { fiber, .. } => Some(fiber),
            _ => None,
        },
        AffTask::KillNext(token) => if system.groups.contains_key(token)
            && system.groups[token].victims.len() > 0 {
            Some(system.groups[token].victims[0])
        } else {
            None
        },
    }
}

/// Whether a fiber is the same up to the observers that have left it.
pub open spec fn same_but_joins<H>(before: FiberView<H>, after: FiberView<H>) -> bool {
    after == (FiberView { joins: after.joins, ..before })
}

/// Whether every fiber but one is there as before, up to observers that have
/// left.
pub open spec fn spares<H>(before: SystemView<H>, after: SystemView<H>, id: Option<usize>) -> bool {
    forall|other: usize|
        #![trigger after.fibers.contains_key(other)]
        #![trigger before.fibers.contains_key(other)]
        before.fibers.contains_key(other) && Some(other) != id ==> after.fibers.contains_key(other)
            && same_but_joins(before.fibers[other], after.fibers[other])
}

proof fn lemma_observers_leave<H>(fibers: Map<usize, FiberView<H>>, removers: Seq<(usize, usize)>)
    ensures
        without_observers(fibers, removers).dom() == fibers.dom(),
        forall|id: usize| #[trigger]
            fibers.contains_key(id) ==> same_but_joins(
                fibers[id],
                without_observers(fibers, removers)[id],
            ),
    decreases removers.len(),
{
    if removers.len() > 0 {
        lemma_observers_leave(fibers, removers.drop_last());
        assert(without_observers(fibers, removers).dom() =~= fibers.dom());
    }
}

proof fn lemma_leaves_spare<H>(
    system: SystemView<H>,
    util: AffUtil<H>,
    supervisor: Option<usize>,
    run: usize,
    leaves: Seq<(usize, AffNodeRef<H>)>,
)
    requires
        forall|id: usize| #[trigger]
            system.fibers.contains_key(id) ==> id < system.runtime.next_id,
        system.runtime.has_room_for(leaves.len()),
    ensures
        ({
            let next = system.bearing_leaves(util, supervisor, run, leaves);
            &&& next.runtime.next_id == system.runtime.next_id + leaves.len()
            &&& next.runtime.natives == system.runtime.natives
            &&& forall|id: usize| #[trigger]
                system.fibers.contains_key(id) ==> next.fibers.contains_key(id)
                    && next.fibers[id] == system.fibers[id]
        }),
    decreases leaves.len(),
{
    if leaves.len() > 0 {
        lemma_leaves_spare(system, util, supervisor, run, leaves.drop_last());
    }
}

proof fn lemma_performing_spares<H>(
    system: SystemView<H>,
    id: usize,
    util: AffUtil<H>,
    supervisor: Option<usize>,
    request: AffRequest<H>,
    now: u128,
)
    requires
        forall|other: usize| #[trigger]
            system.fibers.contains_key(other) ==> other < system.runtime.next_id,
    ensures
        spares(system, system.performing(id, util, supervisor, request, now).system, None),
{
    let next = system.performing(id, util, supervisor, request, now).system;
    match request {
        AffRequest::Revoke(token) => {
            if system.groups.contains_key(token) {
                lemma_observers_leave(system.fibers, system.groups[token].removers);
                assert(next.fibers == without_observers(
                    system.fibers,
                    system.groups[token].removers,
                ));
                assert forall|other: usize| system.fibers.contains_key(other) implies (
                #[trigger] next.fibers.contains_key(other)) && same_but_joins(
                    system.fibers[other],
                    next.fibers[other],
                ) by {
                    assert(next.fibers.dom().contains(other));
                }
            }
        },
        AffRequest::Parallel(root, _) => {
            if system.can_run(root) {
                lemma_leaves_spare(
                    system,
                    util,
                    supervisor,
                    system.next_token,
                    planned_leaves(root),
                );
            }
        },
        _ => {},
    }
}

/// A task touches the fiber that it is about, and no other: of the others at
/// most observers leave, and new fibers may come.
pub proof fn law_task_touches_one_fiber<H>(system: SystemView<H>, task: AffTask<H>, now: u128)
    requires
        system.wf(),
    ensures
        spares(system, system.step(task, now).system, subject(system, task)),
{
    assert forall|id: usize| #[trigger] system.fibers.contains_key(id) implies id
        < system.runtime.next_id by {
        assert(system.fiber_fits(id));
    }
    match task {
        AffTask::Drive(id) => {
            if system.fibers.contains_key(id) && system.fibers[id].is_drivable() {
                assert(system.fiber_fits(id));
                lemma_turning_spares(system, id, system.fibers[id].drive().run(), now);
            }
        },
        AffTask::Reply(id, reply) => {
            if system.fibers.contains_key(id) && system.fibers[id].awaits(reply) {
                assert(system.fiber_fits(id));
                lemma_turning_spares(system, id, system.fibers[id].resumed(reply), now);
            }
        },
        AffTask::Notify(id) => {
            if system.fibers.contains_key(id) {
                assert(system.fiber_fits(id));
            }
        },
        AffTask::Panicked(id) => {
            if system.fibers.contains_key(id) {
                assert(system.fiber_fits(id));
            }
        },
        AffTask::Tell(notice) => {
            if let AffTarget::Resolve { fiber, .. } = notice.target {
                if system.fibers.contains_key(fiber) {
                    assert(system.fiber_fits(fiber));
                }
            }
        },
        AffTask::KillNext(token) => {
            if let Some(victim) = subject(system, task) {
                if system.fibers.contains_key(victim) {
                    assert(system.fiber_fits(victim));
                }
            }
        },
    }
}

proof fn lemma_turning_spares<H>(system: SystemView<H>, id: usize, turn: TurnView<H>, now: u128)
    requires
        system.wf(),
        system.fibers.contains_key(id),
    ensures
        spares(system, system.turning(system.fibers[id], turn, now).system, Some(id)),
{
    assert(system.fiber_fits(id));
    let fiber = system.fibers[id];
    let moved = system.with_fiber(fiber.turned(turn));
    assert forall|other: usize| #[trigger] moved.fibers.contains_key(other) implies other
        < moved.runtime.next_id by {
        if other != id {
            assert(system.fiber_fits(other));
        }
    }
    if let TurnView::Ask { request, .. } = turn {
        lemma_performing_spares(moved, id, fiber.util, fiber.supervisor, request, now);
        let next = system.turning(fiber, turn, now).system;
        assert(next == moved.performing(id, fiber.util, fiber.supervisor, request, now).system);
        assert forall|other: usize| system.fibers.contains_key(other) && other != id implies (
        #[trigger] next.fibers.contains_key(other)) && same_but_joins(
            system.fibers[other],
            next.fibers[other],
        ) by {
            assert(moved.fibers.contains_key(other));
            assert(moved.fibers[other] == system.fibers[other]);
        }
        assert(spares(system, next, Some(id)));
    } else {
        let next = system.turning(fiber, turn, now).system;
        assert(fiber.turned(turn).id == id);
        assert forall|other: usize| system.fibers.contains_key(other) && other != id implies (
        #[trigger] next.fibers.contains_key(other)) && same_but_joins(
            system.fibers[other],
            next.fibers[other],
        ) by {
            assert(next.fibers[other] == system.fibers[other]);
        }
        assert(spares(system, next, Some(id)));
    }
}

/// A fiber ends once: whatever is done after its end, it keeps its result as
/// long as it exists, and only after its observers have been told is it gone.
pub proof fn law_result_is_final<H>(system: SystemView<H>, task: AffTask<H>, now: u128, id: usize)
    requires
        system.wf(),
        system.fibers.contains_key(id),
        system.fibers[id].result is Some,
    ensures
        ({
            let next = system.step(task, now).system;
            if next.fibers.contains_key(id) {
                next.fibers[id].result == system.fibers[id].result
            } else {
                task == AffTask::<H>::Notify(id) && system.fibers[id].notices.len() == 0
            }
        }),
{
    law_task_touches_one_fiber(system, task, now);
    assert(system.fiber_fits(id));
    let next = system.step(task, now).system;
    if subject(system, task) != Some(id) {
        assert(next.fibers.contains_key(id));
    }
}

/// Once a fiber has ended, its observers are told one after another and nothing
/// else is done with them: each task leaves those that are still due, but for
/// the one that tells the first of them.
pub proof fn law_every_observer_is_told_once<H>(
    system: SystemView<H>,
    task: AffTask<H>,
    now: u128,
    id: usize,
)
    requires
        system.wf(),
        system.fibers.contains_key(id),
        system.fibers[id].notices.len() > 0,
    ensures
        ({
            let moved = system.step(task, now);
            let due = system.fibers[id].notices;
            &&& moved.system.fibers.contains_key(id)
            &&& if task == AffTask::<H>::Notify(id) {
                &&& moved.system.fibers[id].notices == due.skip(1)
                &&& moved.tasks == seq![AffTask::Notify(id), AffTask::Tell(due[0])]
            } else {
                moved.system.fibers[id].notices == due
            }
        }),
{
    law_task_touches_one_fiber(system, task, now);
    assert(system.fiber_fits(id));
    let next = system.step(task, now).system;
    if subject(system, task) != Some(id) {
        assert(next.fibers.contains_key(id));
    }
}

/// When a fiber ends, each of its observers is due to be told exactly once, in
/// the order in which they came.
pub proof fn law_every_observer_is_due<H>(fiber: FiberView<H>, result: AffResult<H>)
    requires
        fiber.joins.dom().finite(),
    ensures
        ({
            let entries = listing(fiber.joins);
            let due = fiber.completed(result).notices;
            &&& lists(fiber.joins, entries)
            &&& due.len() == entries.len()
            &&& forall|k: int|
                0 <= k < due.len() ==> #[trigger] due[k] == entries[k].1.callback.notice(result)
        }),
{
    lemma_listing_exists(fiber.joins);
}

/// A fiber that waits to be started or observed goes on waiting until somebody
/// starts, joins or kills it: no task moves it but the one that kills it.
pub proof fn law_suspended_fiber_stays<H>(
    system: SystemView<H>,
    task: AffTask<H>,
    now: u128,
    id: usize,
)
    requires
        system.wf(),
        system.fibers.contains_key(id),
        system.fibers[id].is_suspended(),
        !(task is KillNext && subject(system, task) == Some(id)),
    ensures
        system.step(task, now).system.fibers.contains_key(id),
        system.step(task, now).system.fibers[id].is_suspended(),
        system.step(task, now).system.fibers[id].machine == system.fibers[id].machine,
{
    law_task_touches_one_fiber(system, task, now);
    assert(system.fiber_fits(id));
    let next = system.step(task, now).system;
    if subject(system, task) != Some(id) {
        assert(next.fibers.contains_key(id));
    }
}

/// A fiber on the move belongs to the thread that drives it: another thread
/// that is told to take it on leaves everything as it is.
pub proof fn law_running_fiber_has_one_thread<H>(system: SystemView<H>, id: usize, now: u128)
    requires
        system.wf(),
        system.fibers.contains_key(id),
        system.fibers[id].running,
    ensures
        system.step(AffTask::Drive(id), now) == system.leading_to(seq![]),
{
}

/// Starting a fiber submits it to the pool and runs nothing of it: no work
/// follows on the thread that starts it, and its machine stays as it was.
pub proof fn law_starting_is_submitting<H>(system: SystemView<H>, id: usize)
    requires
        system.wf(),
        system.fibers.contains_key(id),
        system.fibers[id].is_suspended(),
    ensures
        ({
            let call = system.called(id, AffFiberCall::Run);
            &&& call.tasks.len() == 0
            &&& call.system.pool.jobs == system.pool.jobs.push(id)
            &&& call.system.fibers[id] == system.fibers[id].begun()
            &&& call.system.fibers[id].machine == system.fibers[id].machine
            &&& call.system.runtime.fibers.contains(id)
        }),
{
    assert(system.fiber_fits(id));
}

/// A fiber is claimed once: starting it again changes nothing.
pub proof fn law_fiber_is_claimed_once<H>(system: SystemView<H>, id: usize)
    requires
        system.wf(),
        system.fibers.contains_key(id),
    ensures
        system.starting(id).starting(id) == system.starting(id),
{
    assert(system.fiber_fits(id));
}

/// The entry point stays until everything has ended: when it may be left
/// without a panic, every fiber that was ever started has ended and has told
/// all its observers, no native operation is under way and no microtask is
/// left.
pub proof fn law_entry_point_waits<H>(system: SystemView<H>, has_jobs: bool)
    requires
        system.wf(),
        !system.runtime.panicked,
        system.runtime.may_exit(has_jobs),
    ensures
        !has_jobs,
        system.runtime.natives == 0,
        forall|id: usize| #[trigger]
            system.fibers.contains_key(id) && system.fibers[id].started
                ==> system.fibers[id].result is Some && system.fibers[id].notices.len() == 0,
{
    assert forall|id: usize| #[trigger]
        system.fibers.contains_key(id) && system.fibers[id].started implies
        system.fibers[id].result is Some && system.fibers[id].notices.len() == 0 by {
        assert(system.fiber_fits(id));
        assert(system.runtime.fibers.len() == 0);
        assert(system.runtime.fibers =~= Set::empty());
    }
}

/// And it may be left as soon as that is so.
pub proof fn law_entry_point_is_left<H>(system: SystemView<H>)
    requires
        system.wf(),
        system.runtime.fibers =~= Set::empty(),
        system.runtime.natives == 0,
    ensures
        system.runtime.may_exit(false),
{
}

/// A panic is fatal at once, whatever is still active, and comes before any
/// error.
pub proof fn law_panic_is_fatal_at_once<H>(
    runtime: RuntimeView<H>,
    main: AffResult<H>,
    has_jobs: bool,
)
    requires
        runtime.panicked,
    ensures
        runtime.may_exit(has_jobs),
        runtime.exit(main) is Panic,
{
}

/// An error that no observer takes care of is kept for the entry point, and one
/// that an observer takes care of is not.
pub proof fn law_unhandled_errors_are_kept<H>(
    system: SystemView<H>,
    fiber: FiberView<H>,
    error: AffValue<H>,
)
    ensures
        ({
            let errors = system.ending(fiber, Err(error)).system.runtime.errors;
            if fiber.rethrow && fiber.all_rethrow() {
                errors == system.runtime.errors.insert(fiber.id, error)
            } else {
                errors == system.runtime.errors
            }
        }),
{
}

/// The run fails exactly when an error is left: the error of the main effect, or
/// else of those that nobody took care of the one with the least identifier.
pub proof fn law_first_error_is_reported<H>(runtime: RuntimeView<H>, main: AffResult<H>)
    requires
        !runtime.panicked,
        runtime.errors.dom().finite(),
    ensures
        match main {
            Err(error) => runtime.exit(main) == AffExit::<H>::Failure(error),
            Ok(_) => {
                ||| runtime.errors.dom().len() == 0 && runtime.exit(main) is Success
                ||| exists|id: usize| #[trigger]
                    is_first(runtime.errors, id) && runtime.exit(main) == AffExit::<H>::Failure(
                        runtime.errors[id],
                    )
            },
        },
{
    if runtime.errors.dom().len() > 0 {
        let least = lemma_least(runtime.errors);
        let chosen = choose|id: usize| is_first(runtime.errors, id);
        assert(is_first(runtime.errors, least));
        assert(is_first(runtime.errors, chosen));
    } else {
        assert forall|id: usize| !is_first(runtime.errors, id) by {
            if runtime.errors.contains_key(id) {
                assert(runtime.errors.dom().contains(id));
                assert(runtime.errors.dom().remove(id).len() + 1 == runtime.errors.dom().len());
            }
        }
    }
}

/// An observer that comes after the end and takes care of errors makes the
/// error of the fiber count no more.
pub proof fn law_late_observer_forgives<H>(
    system: SystemView<H>,
    id: usize,
    callback: AffCallback<H>,
)
    requires
        system.wf(),
        system.fibers.contains_key(id),
        system.fibers[id].result is Some,
    ensures
        system.observing(id, false, callback).runtime.errors == system.runtime.errors.remove(id),
        system.observing(id, true, callback).runtime.errors == system.runtime.errors,
{
    assert(system.fiber_fits(id));
}

/// Giving up the wait for fibers that are killed together revives none of them:
/// only observers leave.
pub proof fn law_revoking_revives_nothing<H>(system: SystemView<H>, token: usize)
    ensures
        spares(system, system.revoking(token), None),
        system.revoking(token).fibers.dom() == system.fibers.dom(),
        system.revoking(token).runtime == system.runtime,
        system.revoking(token).pool == system.pool,
{
    if system.groups.contains_key(token) {
        lemma_observers_leave(system.fibers, system.groups[token].removers);
        let next = system.revoking(token);
        assert forall|other: usize| system.fibers.contains_key(other) implies (
        #[trigger] next.fibers.contains_key(other)) && same_but_joins(
            system.fibers[other],
            next.fibers[other],
        ) by {
            assert(next.fibers.dom().contains(other));
        }
    }
}

/// The system and the tasks after `n` fibers of a group have ended one after
/// another.
pub open spec fn acknowledgments<H>(system: SystemView<H>, token: usize, n: nat) -> (
    SystemView<H>,
    Seq<AffTask<H>>,
)
    decreases n,
{
    if n == 0 {
        (system, seq![])
    } else {
        let (before, tasks) = acknowledgments(system, token, (n - 1) as nat);
        let moved = before.acknowledged(token);
        (moved.system, tasks + moved.tasks)
    }
}

/// Whoever waits for fibers that are killed together is told once, with the
/// last of them and not before.
pub proof fn law_wait_ends_with_the_last_fiber<H>(system: SystemView<H>, token: usize, n: nat)
    requires
        system.wf(),
        system.groups.contains_key(token),
        n <= system.groups[token].remaining,
    ensures
        ({
            let group = system.groups[token];
            let (next, tasks) = acknowledgments(system, token, n);
            if n < group.remaining {
                next == system.with_group(token, group.after(n)) && tasks.len() == 0
            } else {
                next == system.without_group(token) && tasks == seq![word(group.target)]
            }
        }),
    decreases n,
{
    let group = system.groups[token];
    if n == 0 {
        assert(group.after(0) == group);
        assert(system.with_group(token, group) =~= system);
    } else {
        law_wait_ends_with_the_last_fiber(system, token, (n - 1) as nat);
        let (before, tasks) = acknowledgments(system, token, (n - 1) as nat);
        assert(before.groups[token] == group.after((n - 1) as nat));
        let moved = before.acknowledged(token);
        assert(tasks + moved.tasks =~= moved.tasks);
        if n < group.remaining {
            assert(moved.system =~= system.with_group(token, group.after(n)));
        } else {
            assert(moved.system =~= system.without_group(token));
        }
    }
}

/// The identifiers that `n` fibers get, when the first one gets `base`.
pub open spec fn identifiers(base: usize, n: nat) -> Seq<usize> {
    Seq::new(n, |k: int| (base + k) as usize)
}

/// Every leaf of a parallel run is observed by the run and waits for a worker
/// before any of them runs, in the order in which the leaves stand.
pub proof fn law_leaves_are_observed_before_they_start<H>(
    system: SystemView<H>,
    util: AffUtil<H>,
    supervisor: Option<usize>,
    root: AffNodeRef<H>,
    target: AffTarget<H>,
)
    requires
        system.wf(),
        system.can_run(root),
    ensures
        ({
            let leaves = planned_leaves(root);
            let next = system.running(util, supervisor, root, target);
            let base = system.runtime.next_id;
            &&& next.pool.jobs == system.pool.jobs + identifiers(base, leaves.len())
            &&& forall|k: int|
                0 <= k < leaves.len() ==> {
                    let id = #[trigger] identifiers(base, leaves.len())[k];
                    &&& next.fibers.contains_key(id)
                    &&& next.runtime.fibers.contains(id)
                    &&& next.fibers[id] == AffBirth::leaf(
                        util,
                        supervisor,
                        system.next_token,
                        leaves[k].0,
                    ).child(id, leaves[k].1).begun()
                }
        }),
{
    assert forall|id: usize| #[trigger] system.fibers.contains_key(id) implies id
        < system.runtime.next_id by {
        assert(system.fiber_fits(id));
    }
    lemma_leaves_born(system, util, supervisor, system.next_token, planned_leaves(root));
}

proof fn lemma_leaves_born<H>(
    system: SystemView<H>,
    util: AffUtil<H>,
    supervisor: Option<usize>,
    run: usize,
    leaves: Seq<(usize, AffNodeRef<H>)>,
)
    requires
        system.runtime.has_room_for(leaves.len()),
    ensures
        ({
            let next = system.bearing_leaves(util, supervisor, run, leaves);
            let base = system.runtime.next_id;
            &&& next.runtime.next_id == base + leaves.len()
            &&& next.runtime.natives == system.runtime.natives
            &&& next.pool.jobs == system.pool.jobs + identifiers(base, leaves.len())
            &&& forall|k: int|
                0 <= k < leaves.len() ==> {
                    let id = #[trigger] identifiers(base, leaves.len())[k];
                    &&& next.fibers.contains_key(id)
                    &&& next.runtime.fibers.contains(id)
                    &&& next.fibers[id] == AffBirth::leaf(
                        util,
                        supervisor,
                        run,
                        leaves[k].0,
                    ).child(id, leaves[k].1).begun()
                }
        }),
    decreases leaves.len(),
{
    let base = system.runtime.next_id;
    let next = system.bearing_leaves(util, supervisor, run, leaves);
    if leaves.len() == 0 {
        assert(identifiers(base, 0) =~= seq![]);
        assert(next.pool.jobs =~= system.pool.jobs + identifiers(base, 0));
    } else {
        let fewer = leaves.drop_last();
        let before = system.bearing_leaves(util, supervisor, run, fewer);
        lemma_leaves_born(system, util, supervisor, run, fewer);
        let ids = identifiers(base, leaves.len());
        assert(ids =~= identifiers(base, fewer.len()).push(before.runtime.next_id));
        assert(next.pool.jobs =~= system.pool.jobs + ids);
        assert forall|k: int| 0 <= k < leaves.len() implies ({
            let id = #[trigger] ids[k];
            &&& next.fibers.contains_key(id)
            &&& next.runtime.fibers.contains(id)
            &&& next.fibers[id] == AffBirth::leaf(util, supervisor, run, leaves[k].0).child(
                id,
                leaves[k].1,
            ).begun()
        }) by {
            if k < fewer.len() {
                assert(identifiers(base, fewer.len())[k] == ids[k]);
                assert(fewer[k] == leaves[k]);
                assert(ids[k] < before.runtime.next_id);
            }
        }
    }
}

/// A fiber that waits for a parallel run does not hold its thread: when the run
/// has been registered and nothing has come in, nothing is left to do for it.
pub proof fn law_waiting_for_branches_frees_the_thread<H>(
    system: SystemView<H>,
    id: usize,
    run: usize,
    now: u128,
)
    requires
        system.wf(),
        system.fibers.contains_key(id),
        system.fibers[id].events.len() == 0,
        system.fibers[id].awaits(AffReply::Registered(AffCancel::Parallel(run))),
    ensures
        ({
            let moved = system.step(
                AffTask::Reply(id, AffReply::Registered(AffCancel::Parallel(run))),
                now,
            );
            &&& moved.tasks.len() == 0
            &&& moved.call is None
            &&& !moved.system.fibers[id].running
        }),
{
    let fiber = system.fibers[id];
    assert(system.fiber_fits(id));
    let reply = AffReply::<H>::Registered(AffCancel::Parallel(run));
    let driver = fiber.driver->0;
    let waiting = driver.drive(fiber.events).answered(driver.wait, reply);
    assert(driver.backlog.len() == 0);
    let opened = DriveView {
        backlog: waiting.backlog + waiting.events,
        events: Seq::empty(),
        fresh: false,
        ..waiting
    };
    assert(waiting.run() == opened.run());
    assert(opened.backlog.len() == 0);
    assert(opened.run() is Suspended);
}

/// Timers fire in the order of their deadlines, and of two with the same
/// deadline the one that was registered first fires first.
pub proof fn law_timers_fire_in_order<C>(
    timers: Map<AffTimerKey, C>,
    first: C,
    earlier: u128,
    between: Map<AffTimerKey, C>,
    second: C,
    later: u128,
    after: Map<AffTimerKey, C>,
)
    requires
        is_poll(timers, earlier, AffTimerAction::Fire(first), between),
        is_poll(between, later, AffTimerAction::Fire(second), after),
    ensures
        exists|a: AffTimerKey, b: AffTimerKey|
            #![trigger is_next(timers, a), is_next(between, b)]
            is_next(timers, a) && is_next(between, b) && timers[a] == first && between[b] == second
                && not_after(a, b) && a != b,
{
    let a = choose|key: AffTimerKey| #[trigger]
        is_next(timers, key) && key.0 <= earlier && first == timers[key] && between
            == timers.remove(key);
    let b = choose|key: AffTimerKey| #[trigger]
        is_next(between, key) && key.0 <= later && second == between[key] && after
            == between.remove(key);
    assert(timers.contains_key(b));
    assert(is_next(timers, a) && is_next(between, b));
}

/// A timer that is registered later never comes before one with the same
/// deadline that was registered earlier.
pub proof fn law_later_timer_fires_later<H>(
    system: SystemView<H>,
    earlier: AffTimerKey,
    id: usize,
    tick: usize,
    nanoseconds: u128,
    now: u128,
)
    requires
        system.wf(),
        system.timers.contains_key(earlier),
        now + nanoseconds <= system.horizon,
        system.runtime.has_room(),
        earlier.0 <= now + nanoseconds,
    ensures
        ({
            let key = ((now + nanoseconds) as u128, system.runtime.next_id);
            let next = system.delaying(id, tick, Some(nanoseconds), now).system;
            &&& !system.timers.contains_key(key)
            &&& next.timers == system.timers.insert(key, AffTarget::Resolve { fiber: id, tick })
            &&& not_after(earlier, key)
        }),
{
}

/// A fiber that is killed before a thread has taken it on never runs its body:
/// the kill makes the killing thread end it with the error, and the program is
/// asked for nothing on its behalf.
pub proof fn law_killing_an_idle_fiber_ends_it<H>(
    system: SystemView<H>,
    id: usize,
    node: AffNodeRef<H>,
    error: AffValue<H>,
    callback: AffValue<H>,
    now: u128,
)
    requires
        system.wf(),
        system.fibers.contains_key(id),
        system.fibers[id].machine == Some(MachineView::start(node)),
        system.fibers[id].result is None,
        system.fibers[id].events.len() == 0,
    ensures
        ({
            let killed = system.called(id, AffFiberCall::Kill(error, callback));
            let moved = killed.system.step(AffTask::Drive(id), now);
            &&& killed.tasks == seq![AffTask::<H>::Drive(id)]
            &&& moved.call is None
            &&& moved.tasks == seq![AffTask::<H>::Notify(id)]
            &&& moved.system.fibers[id].result == Some(AffResult::<H>::Err(error))
        }),
{
    assert(system.fiber_fits(id));
    let fiber = system.fibers[id];
    let target = fiber.foreign(callback);
    let events = fiber.killed(error, target).events;
    assert(events =~= seq![AffEvent::Kill(error)]);
    law_killed_before_start_never_runs(node, events);
    let killed = system.called(id, AffFiberCall::Kill(error, callback)).system;
    assert(killed.fibers[id] == fiber.killed(error, target));
    assert(killed.fibers[id].is_drivable());
}

/// An operation on the handle of a fiber touches this fiber and no other, and
/// never changes a result.
pub proof fn law_handle_touches_its_fiber<H>(
    system: SystemView<H>,
    id: usize,
    call: AffFiberCall<H>,
)
    requires
        system.wf(),
        system.fibers.contains_key(id),
    ensures
        ({
            let next = system.called(id, call).system;
            &&& spares(system, next, Some(id))
            &&& next.fibers.contains_key(id)
            &&& next.fibers[id].result == system.fibers[id].result
        }),
{
    assert(system.fiber_fits(id));
}

/// A child belongs to the supervisor of its parent, and passes it on to its own
/// children.
pub proof fn law_children_share_their_supervisor<H>(
    system: SystemView<H>,
    parent: usize,
    util: AffUtil<H>,
    supervisor: usize,
    immediate: bool,
    node: AffNodeRef<H>,
)
    requires
        system.wf(),
        system.runtime.has_room(),
        system.supervisors.contains_key(supervisor),
    ensures
        ({
            let moved = system.forking(parent, util, Some(supervisor), immediate, node);
            let child = system.runtime.next_id;
            &&& moved.call == Some(AffHostCall::<H>::Forked { parent, child })
            &&& moved.system.supervisors[supervisor] == system.supervisors[supervisor].insert(child)
            &&& moved.system.fibers[child].supervisor == Some(supervisor)
            &&& moved.system.fibers[child].util == util
            &&& moved.system.fibers[child].started == immediate
        }),
{
}

/// The fibers of a group are killed one after another, each with the error of
/// the group: the next one gets the kill and is driven at once, and the group
/// is told when it has ended.
pub proof fn law_next_victim_is_killed<H>(system: SystemView<H>, token: usize)
    requires
        system.wf(),
        system.groups.contains_key(token),
        system.groups[token].victims.len() > 0,
        system.fibers.contains_key(system.groups[token].victims[0]),
        system.fibers[system.groups[token].victims[0]].result is None,
    ensures
        ({
            let group = system.groups[token];
            let victim = group.victims[0];
            let moved = system.killing_next(token);
            let fiber = moved.system.fibers[victim];
            &&& moved.tasks == seq![AffTask::KillNext(token), AffTask::<H>::Drive(victim)]
            &&& moved.system.groups[token].victims == group.victims.skip(1)
            &&& fiber.started
            &&& fiber.events == system.fibers[victim].events.push(AffEvent::Kill(group.error))
            &&& fiber.joins[system.fibers[victim].next_join].callback == AffCallback::Acknowledge(
                AffTarget::<H>::Killed(token),
            )
        }),
{
    assert(system.fiber_fits(system.groups[token].victims[0]));
}

/// Killing a fiber that has ended, with its handle or together with others,
/// leaves every error to be reported as it was, and gives no thread anything to
/// do but to say that the fiber has ended.
pub proof fn law_killing_an_ended_fiber_keeps_its_error<H>(
    system: SystemView<H>,
    id: usize,
    error: AffValue<H>,
    callback: AffValue<H>,
    token: usize,
)
    requires
        system.wf(),
        system.fibers.contains_key(id),
        system.fibers[id].result is Some,
    ensures
        ({
            let killed = system.called(id, AffFiberCall::Kill(error, callback));
            &&& killed.system.runtime == system.runtime
            &&& killed.system.pool == system.pool
            &&& killed.tasks == seq![word(system.fibers[id].foreign(callback))]
            &&& killed.system.fibers[id] == (FiberView {
                next_join: killed.system.fibers[id].next_join,
                anew: killed.system.fibers[id].anew,
                ..system.fibers[id]
            })
        }),
        subject(system, AffTask::KillNext(token)) == Some(id) ==> {
            let moved = system.killing_next(token);
            &&& moved.system.runtime == system.runtime
            &&& moved.tasks == seq![AffTask::KillNext(token), word(AffTarget::<H>::Killed(token))]
        },
{
    assert(system.fiber_fits(id));
}

/// An observer that is removed before the fiber ends is as if it had never come:
/// the fiber then has the observers from before, ends in the same way and tells
/// the same observers, and neither the coming nor the removal tells anybody
/// anything. Removing it again changes nothing.
pub proof fn law_removed_observer_was_never_there<H>(
    fiber: FiberView<H>,
    runtime: RuntimeView<H>,
    rethrow: bool,
    callback: AffCallback<H>,
    result: AffResult<H>,
)
    requires
        fiber.wf(),
        fiber.result is None,
        !fiber.anew,
    ensures
        ({
            let observed = fiber.observed(rethrow, callback);
            let removed = observed.detached(fiber.next_join);
            &&& fiber.immediate(callback) is None
            &&& fiber.forgiven(rethrow, runtime) == runtime
            &&& observed.joins.contains_key(fiber.next_join)
            &&& removed == (FiberView {
                next_join: observed.next_join,
                anew: observed.anew,
                ..fiber
            })
            &&& removed.completed(result) == (FiberView {
                next_join: observed.next_join,
                anew: observed.anew,
                ..fiber.completed(result)
            })
            &&& removed.reported(result, runtime) == fiber.reported(result, runtime)
            &&& removed.detached(fiber.next_join) == removed
        }),
{
    let observed = fiber.observed(rethrow, callback);
    let removed = observed.detached(fiber.next_join);
    assert(!fiber.joins.contains_key(fiber.next_join));
    assert(removed.joins =~= fiber.joins);
    assert(removed.detached(fiber.next_join).joins =~= removed.joins);
}

/// Removing an observer that came to a fiber after its end, or was told of the
/// end, changes nothing.
pub proof fn law_removal_after_the_end_changes_nothing<H>(fiber: FiberView<H>, join: usize)
    requires
        fiber.wf(),
        fiber.result is Some,
    ensures
        fiber.detached(join) == fiber,
{
    assert(fiber.detached(join).joins =~= fiber.joins);
}

/// The same of a handle: joining a fiber, or watching for its end, and then
/// removing the observer leaves all fibers, the errors to be reported and the
/// register as they would have been without it.
pub proof fn law_watching_can_be_taken_back<H>(
    system: SystemView<H>,
    id: usize,
    rethrow: bool,
    handler: AffValue<H>,
)
    requires
        system.wf(),
        system.fibers.contains_key(id),
        system.fibers[id].result is None,
        !system.fibers[id].anew,
    ensures
        ({
            let watched = system.called(id, AffFiberCall::OnComplete { rethrow, handler });
            let joined = system.called(id, AffFiberCall::Join(handler));
            let number = system.fibers[id].next_join;
            let numbered = FiberView {
                next_join: watched.system.fibers[id].next_join,
                anew: watched.system.fibers[id].anew,
                ..system.fibers[id]
            };
            &&& watched.tasks.len() == 0 && joined.tasks.len() == 0
            &&& watched.answer.join == Some(number) && joined.answer.join == Some(number)
            &&& watched.system.detaching(id, number) == system.with_fiber(numbered)
            &&& joined.system.detaching(id, number) == system.with_fiber(numbered).starting(id)
        }),
{
    assert(system.fiber_fits(id));
    let fiber = system.fibers[id];
    let callback = AffCallback::Deliver(fiber.foreign(handler));
    law_removed_observer_was_never_there(fiber, system.runtime, rethrow, callback, Ok(handler));
    law_removed_observer_was_never_there(fiber, system.runtime, false, callback, Ok(handler));
    let watched = system.called(id, AffFiberCall::OnComplete { rethrow, handler });
    let joined = system.called(id, AffFiberCall::Join(handler));
    let numbered = FiberView {
        next_join: watched.system.fibers[id].next_join,
        anew: watched.system.fibers[id].anew,
        ..fiber
    };
    assert(watched.system.detaching(id, fiber.next_join) =~= system.with_fiber(numbered));
    assert(joined.system.detaching(id, fiber.next_join) =~= system.with_fiber(numbered).starting(
        id,
    ));
}

/// A wait for fibers that is given up never ends if one of its observers could
/// be removed; if all fibers that are left are telling of their ends already, it
/// ends with the last of them as if nothing had been given up.
pub proof fn law_revoked_wait_is_silent_or_ends<H>(system: SystemView<H>, token: usize)
    requires
        system.wf(),
        system.groups.contains_key(token),
        system.groups[token].victims.len() == 0,
    ensures
        ({
            let group = system.groups[token];
            let next = system.revoking(token);
            if has_observer(system.fibers, group.removers) {
                next.acknowledged(token) == next.leading_to(seq![])
            } else {
                &&& next.groups.contains_key(token)
                &&& next.groups[token].remaining == group.remaining
                &&& next.acknowledged(token).tasks == system.acknowledged(token).tasks
            }
        }),
{
}

} // verus!
