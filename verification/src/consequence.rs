//! What follows from a task: what becomes of the system, which tasks come next, and
//! what the embedding program is asked for.
use crate::driver::{AffReply, TurnView};
use crate::fault::AffFault;
use crate::fiber::FiberView;
use crate::machine::{AffCancel, AffEvent, AffRequest};
use crate::moved::Moved;
use crate::runtime::RuntimeView;
use crate::system::{AffSystem, SystemView};
use crate::target::{AffNotice, AffTarget};
use crate::task::{AffHostCall, AffTask};
use crate::util::{AffCall, AffUtil};
use crate::value::{AffNative, AffNode, AffNodeRef, AffResult, AffValue};
use crate::waiting::KillManyView;
use vstd::prelude::*;

verus! {

/// Whether nothing has happened, and nothing follows.
pub open spec fn is_nothing<H>(system: SystemView<H>, moved: Moved<H>) -> bool {
    moved.system == system && moved.tasks.len() == 0 && moved.call is None
}

/// Whether one task follows and the program is not asked for anything.
pub open spec fn leads_to<H>(moved: Moved<H>, task: AffTask<H>) -> bool {
    moved.tasks.len() == 1 && moved.tasks[0] == task && moved.call is None
}

/// Whether the program is asked for something and no task follows.
pub open spec fn asks_for<H>(moved: Moved<H>, call: AffHostCall<H>) -> bool {
    moved.tasks.len() == 0 && moved.call == Some(call)
}

/// Whether the system is left alone, the runtime itself panics, and fiber `id` ends
/// for it.
pub open spec fn breaks<H>(
    system: SystemView<H>,
    moved: Moved<H>,
    id: usize,
    fault: AffFault,
) -> bool {
    &&& moved.system == system
    &&& moved.tasks.len() == 1 && moved.tasks[0] == AffTask::<H>::Panicked(id)
    &&& moved.call == Some(AffHostCall::<H>::Fault(fault))
}

/// Whether the fiber goes on with a description of this kind.
pub open spec fn replies_with<H>(moved: Moved<H>, id: usize, node: AffNode<H>) -> bool {
    &&& moved.tasks.len() == 1
    &&& moved.call is None
    &&& moved.tasks[0] matches AffTask::Reply(who, reply) && who == id && (
    reply matches AffReply::Next(Ok(value)) && (value matches AffValue::Aff(shared) && shared.node
        == node))
}

/// The word that a wait is over reaches the fiber as an event, behind those that
/// came before, and the fiber is taken on. An ended fiber takes no notice.
pub proof fn law_resolution_reaches_its_fiber<H>(
    system: SystemView<H>,
    id: usize,
    tick: usize,
    result: AffResult<H>,
    now: u128,
)
    requires
        system.wf(),
    ensures
        ({
            let target = AffTarget::Resolve { fiber: id, tick };
            let moved = system.step(AffTask::Tell(AffNotice { target, result }), now);
            if system.fibers.contains_key(id) && system.fibers[id].result is None {
                &&& moved.system == (SystemView {
                    fibers: system.fibers.insert(
                        id,
                        FiberView {
                            events: system.fibers[id].events.push(AffEvent::Resolve(tick, result)),
                            ..system.fibers[id]
                        },
                    ),
                    ..system
                })
                &&& leads_to(moved, AffTask::Drive(id))
            } else {
                is_nothing(system, moved)
            }
        }),
{
    if system.fibers.contains_key(id) {
        assert(system.fiber_fits(id));
    }
}

/// An observer in the program gets the result in the program's own form: a value on
/// the right, an error on the left. An effect is run whatever the result.
pub proof fn law_program_is_told_in_its_own_form<H>(
    system: SystemView<H>,
    callback: AffValue<H>,
    util: AffUtil<H>,
    x: AffValue<H>,
    result: AffResult<H>,
    now: u128,
)
    ensures
        ({
            let target = AffTarget::Foreign { callback, util };
            let well = system.step(AffTask::Tell(AffNotice { target, result: Ok(x) }), now);
            let badly = system.step(AffTask::Tell(AffNotice { target, result: Err(x) }), now);
            &&& well.system == system && badly.system == system
            &&& asks_for(
                well,
                AffHostCall::Notice {
                    encoded: AffCall { function: util.right, argument: x },
                    callback,
                },
            )
            &&& asks_for(
                badly,
                AffHostCall::Notice {
                    encoded: AffCall { function: util.left, argument: x },
                    callback,
                },
            )
        }),
        ({
            let target = AffTarget::Effect(callback);
            let moved = system.step(AffTask::Tell(AffNotice { target, result }), now);
            moved.system == system && asks_for(moved, AffHostCall::Run(callback))
        }),
{
}

/// The result of a leaf or of a call comes in for its entry; what comes with the
/// last kill is the outcome that waited for it.
pub proof fn law_results_come_in_for_their_entries<H>(
    system: SystemView<H>,
    run: usize,
    entry: usize,
    result: AffResult<H>,
    outcome: AffResult<H>,
    now: u128,
)
    ensures
        system.step(
            AffTask::Tell(AffNotice { target: AffTarget::Settle { run, entry }, result }),
            now,
        ) == system.settling(run, entry, result),
        system.step(
            AffTask::Tell(AffNotice { target: AffTarget::Outcome { run, entry, outcome }, result }),
            now,
        ) == system.settling(run, entry, outcome),
{
}

/// Each fiber of a group that has ended is counted, and with the last one whoever
/// waits is told that all is done.
pub proof fn law_group_is_counted_down<H>(
    system: SystemView<H>,
    token: usize,
    result: AffResult<H>,
    now: u128,
)
    ensures
        ({
            let target = AffTarget::Killed(token);
            let moved = system.step(AffTask::Tell(AffNotice { target, result }), now);
            let group = system.groups[token];
            if !system.groups.contains_key(token) {
                is_nothing(system, moved)
            } else if group.remaining == 1 {
                &&& moved.system == (SystemView { groups: system.groups.remove(token), ..system })
                &&& leads_to(
                    moved,
                    AffTask::Tell(AffNotice { target: group.target, result: Ok(AffValue::Unit) }),
                )
            } else {
                &&& moved.system == (SystemView {
                    groups: system.groups.insert(
                        token,
                        KillManyView { remaining: (group.remaining - 1) as nat, ..group },
                    ),
                    ..system
                })
                &&& moved.tasks.len() == 0 && moved.call is None
            }
        }),
{
}

/// The observers of an ended fiber are told one by one. When all have been told,
/// the fiber leaves the register, and is forgotten if the program has no handle of
/// it.
pub proof fn law_observers_are_told_and_the_fiber_leaves<H>(
    system: SystemView<H>,
    id: usize,
    now: u128,
)
    requires
        system.wf(),
    ensures
        ({
            let moved = system.step(AffTask::Notify(id), now);
            let fiber = system.fibers[id];
            if system.fibers.contains_key(id) && fiber.notices.len() > 0 {
                &&& moved.system == (SystemView {
                    fibers: system.fibers.insert(
                        id,
                        FiberView { notices: fiber.notices.skip(1), ..fiber },
                    ),
                    ..system
                })
                &&& moved.tasks.len() == 2 && moved.call is None
                &&& moved.tasks[1] == AffTask::Tell(fiber.notices[0])
                &&& moved.tasks[0] == AffTask::<H>::Notify(id)
            } else if system.fibers.contains_key(id) && fiber.result is Some
                && system.runtime.fibers.contains(id) {
                &&& moved.system == (SystemView {
                    runtime: RuntimeView {
                        fibers: system.runtime.fibers.remove(id),
                        active: (system.runtime.active - 1) as nat,
                        ..system.runtime
                    },
                    fibers: if fiber.owned {
                        system.fibers
                    } else {
                        system.fibers.remove(id)
                    },
                    ..system
                })
                &&& moved.tasks.len() == 0 && moved.call is None
            } else {
                is_nothing(system, moved)
            }
        }),
{
    if system.fibers.contains_key(id) {
        assert(system.fiber_fits(id));
    }
}

/// Whether fiber `id` has ended in `moved` with this result: it is complete, its
/// error is reported or not, its supervisor has let go of it, and its observers are
/// told next.
pub open spec fn has_ended<H>(
    system: SystemView<H>,
    moved: Moved<H>,
    fiber: FiberView<H>,
    result: AffResult<H>,
) -> bool {
    &&& moved.system == (SystemView {
        runtime: fiber.reported(result, system.runtime),
        fibers: system.fibers.insert(fiber.id, fiber.completed(result)),
        supervisors: moved.system.supervisors,
        ..system
    })
    &&& leads_to(moved, AffTask::Notify(fiber.id))
    &&& forall|key: usize| #[trigger]
        moved.system.supervisors.contains_key(key) <==> system.supervisors.contains_key(key)
    &&& forall|key: usize|
        system.supervisors.contains_key(key) ==> #[trigger] moved.system.supervisors[key]
            == if fiber.supervisor == Some(key) {
            system.supervisors[key].remove(fiber.id)
        } else {
            system.supervisors[key]
        }
}

/// A Rust panic that hits a fiber is recorded for the program, and the fiber ends
/// with an error, so that those who wait for it end too.
pub proof fn law_panic_ends_its_fiber<H>(system: SystemView<H>, id: usize, now: u128)
    requires
        system.wf(),
    ensures
        ({
            let moved = system.step(AffTask::Panicked(id), now);
            let marked = SystemView {
                runtime: RuntimeView { panicked: true, ..system.runtime },
                ..system
            };
            if system.fibers.contains_key(id) && system.fibers[id].started
                && system.fibers[id].result is None {
                has_ended(
                    marked,
                    moved,
                    system.fibers[id],
                    Err(AffValue::Fault(AffFault::Panicked)),
                )
            } else {
                moved.system == marked && moved.tasks.len() == 0 && moved.call is None
            }
        }),
{
    if system.fibers.contains_key(id) {
        assert(system.fiber_fits(id));
    }
}

/// A fiber that no thread has, that was started and has not ended, is driven as far
/// as it goes; any other is left alone.
pub proof fn law_fiber_is_driven_as_far_as_it_goes<H>(system: SystemView<H>, id: usize, now: u128)
    ensures
        ({
            let moved = system.step(AffTask::Drive(id), now);
            let fiber = system.fibers[id];
            if system.fibers.contains_key(id) && fiber.started && !fiber.running && fiber.result
                is None {
                moved == system.turning(fiber, fiber.drive().run(), now)
            } else {
                is_nothing(system, moved)
            }
        }),
{
}

/// A reply goes to the fiber that waits for it, which goes on as far as it can. What
/// comes back in place of a computation and is none breaks the fiber. A reply that
/// nobody waits for is dropped.
pub proof fn law_reply_is_taken_in<H>(
    system: SystemView<H>,
    id: usize,
    reply: AffReply<H>,
    now: u128,
)
    ensures
        ({
            let moved = system.step(AffTask::Reply(id, reply), now);
            let fiber = system.fibers[id];
            if system.fibers.contains_key(id) && fiber.awaits(reply) {
                moved == system.turning(fiber, fiber.resumed(reply), now)
            } else if system.fibers.contains_key(id) && fiber.driver is Some && (
            fiber.driver->0.wait is Next || fiber.driver->0.wait is Undo) && (
            reply matches AffReply::Next(Ok(value)) && !(value is Aff)) {
                breaks(system, moved, id, AffFault::NotAff)
            } else {
                is_nothing(system, moved)
            }
        }),
{
}

/// Where a run of a fiber has stopped, the fiber is kept as the run has left it, and
/// what follows is what the run stopped for: nothing while it waits; another thread
/// if it gave way and something has come in; its end.
pub proof fn law_what_follows_a_run<H>(
    system: SystemView<H>,
    fiber: FiberView<H>,
    turn: TurnView<H>,
    now: u128,
)
    ensures
        ({
            let moved = system.turning(fiber, turn, now);
            let left = fiber.turned(turn);
            let kept = SystemView { fibers: system.fibers.insert(fiber.id, left), ..system };
            match turn {
                TurnView::Ask { request, .. } => moved == kept.performing(
                    fiber.id,
                    fiber.util,
                    fiber.supervisor,
                    request,
                    now,
                ),
                TurnView::Suspended(_) => is_nothing(kept, moved),
                TurnView::Yielded(_, events) => moved.system == kept && if events.len() > 0 {
                    asks_for(moved, AffHostCall::Resume(fiber.id))
                } else {
                    moved.tasks.len() == 0 && moved.call is None
                },
                TurnView::Finished(result, _) => has_ended(system, moved, left, result),
            }
        }),
{
}

/// A delay that is registered now ends so many nanoseconds from now, whatever other
/// timers there are: a timer with that deadline and a fresh identifier waits for the
/// wait of this fiber, the other timers stay, and the canceler is this timer.
pub proof fn law_delay_ends_after_its_duration<H>(
    system: SystemView<H>,
    id: usize,
    util: AffUtil<H>,
    supervisor: Option<usize>,
    nanoseconds: u128,
    tick: usize,
    yields: bool,
    now: u128,
)
    requires
        now + nanoseconds <= system.horizon,
        system.runtime.next_id + system.runtime.natives < usize::MAX,
    ensures
        ({
            let build = AffNative::Delay(Some(nanoseconds));
            let moved = system.performing(
                id,
                util,
                supervisor,
                AffRequest::Native { build, tick, yields },
                now,
            );
            let key = ((now + nanoseconds) as u128, system.runtime.next_id);
            &&& key.0 == now + nanoseconds
            &&& moved.system == (SystemView {
                runtime: RuntimeView {
                    next_id: (system.runtime.next_id + 1) as usize,
                    ..system.runtime
                },
                timers: system.timers.insert(key, AffTarget::Resolve { fiber: id, tick }),
                ..system
            })
            &&& leads_to(
                moved,
                AffTask::Reply(id, AffReply::Registered(AffCancel::Timer(key))),
            )
        }),
{
}

/// A delay that cannot be is fatal: one longer than a duration can be, one whose end
/// is beyond the clock, and one without an identifier left for its timer.
pub proof fn law_impossible_delay_breaks_the_fiber<H>(
    system: SystemView<H>,
    id: usize,
    util: AffUtil<H>,
    supervisor: Option<usize>,
    delay: Option<u128>,
    tick: usize,
    yields: bool,
    now: u128,
)
    ensures
        ({
            let build = AffNative::Delay(delay);
            let moved = system.performing(
                id,
                util,
                supervisor,
                AffRequest::Native { build, tick, yields },
                now,
            );
            &&& delay is None ==> breaks(system, moved, id, AffFault::Duration)
            &&& delay is Some && now + delay->0 > system.horizon ==> breaks(
                system,
                moved,
                id,
                AffFault::Deadline,
            )
            &&& delay is Some && now + delay->0 <= system.horizon && system.runtime.next_id
                + system.runtime.natives >= usize::MAX ==> breaks(
                system,
                moved,
                id,
                AffFault::Exhausted,
            )
        }),
{
}

/// Giving up a wait: a timer is removed, and only this one; the branches of a
/// parallel computation are halted with the error; a wait for killed fibers is
/// revoked; and where there is nothing to undo, nothing is done.
pub proof fn law_waits_are_undone<H>(
    system: SystemView<H>,
    id: usize,
    util: AffUtil<H>,
    supervisor: Option<usize>,
    key: crate::timer::AffTimerKey,
    run: usize,
    error: AffValue<H>,
    now: u128,
)
    ensures
        ({
            let moved = system.performing(
                id,
                util,
                supervisor,
                AffRequest::Cancel(AffCancel::Timer(key), error),
                now,
            );
            &&& moved.system == (SystemView { timers: system.timers.remove(key), ..system })
            &&& replies_with(moved, id, AffNode::Pure(AffValue::Unit))
        }),
        ({
            let moved = system.performing(
                id,
                util,
                supervisor,
                AffRequest::Cancel(AffCancel::Nothing, error),
                now,
            );
            moved.system == system && replies_with(moved, id, AffNode::Pure(AffValue::Unit))
        }),
        ({
            let moved = system.performing(
                id,
                util,
                supervisor,
                AffRequest::Cancel(AffCancel::Parallel(run), error),
                now,
            );
            moved.system == system && replies_with(
                moved,
                id,
                AffNode::NativeAsync {
                    yield_after_registration: false,
                    build: AffNative::Halt(run, error),
                },
            )
        }),
        ({
            let moved = system.performing(
                id,
                util,
                supervisor,
                AffRequest::Cancel(AffCancel::Killing(run), error),
                now,
            );
            moved.system == system && replies_with(moved, id, AffNode::Revoke(run))
        }),
        ({
            let moved = system.performing(id, util, supervisor, AffRequest::Revoke(run), now);
            &&& moved.system == system.revoking(run)
            &&& leads_to(moved, AffTask::Reply(id, AffReply::Outcome(Ok(AffValue::Unit))))
        }),
{
}

/// What only the program can do is handed to it as it is, and the system is left
/// alone. A parallel description out of place is fatal.
pub proof fn law_program_is_asked_as_it_is<H>(
    system: SystemView<H>,
    id: usize,
    util: AffUtil<H>,
    supervisor: Option<usize>,
    f: AffValue<H>,
    x: AffValue<H>,
    resource: AffValue<H>,
    host: std::sync::Arc<H>,
    tick: usize,
    yields: bool,
    now: u128,
)
    ensures
        ({
            let request = AffRequest::Effect(f);
            let moved = system.performing(id, util, supervisor, request, now);
            moved.system == system && asks_for(moved, AffHostCall::Request(id, request))
        }),
        ({
            let request = AffRequest::Transform(f, x);
            let moved = system.performing(id, util, supervisor, request, now);
            moved.system == system && asks_for(moved, AffHostCall::Request(id, request))
        }),
        ({
            let request = AffRequest::Continue(f, x);
            let moved = system.performing(id, util, supervisor, request, now);
            moved.system == system && asks_for(moved, AffHostCall::Request(id, request))
        }),
        ({
            let request = AffRequest::Finalize { handler: f, argument: x, resource };
            let moved = system.performing(id, util, supervisor, request, now);
            moved.system == system && asks_for(moved, AffHostCall::Request(id, request))
        }),
        ({
            let request = AffRequest::Cancel(AffCancel::Foreign(f), x);
            let moved = system.performing(id, util, supervisor, request, now);
            moved.system == system && asks_for(moved, AffHostCall::Request(id, request))
        }),
        ({
            let request = AffRequest::Cancel(AffCancel::Native(host), x);
            let moved = system.performing(id, util, supervisor, request, now);
            moved.system == system && asks_for(moved, AffHostCall::Request(id, request))
        }),
        ({
            let request = AffRequest::Native { build: AffNative::Host(host), tick, yields };
            let moved = system.performing(id, util, supervisor, request, now);
            moved.system == system && asks_for(moved, AffHostCall::Request(id, request))
        }),
        ({
            let moved = system.performing(id, util, supervisor, AffRequest::Async(f, tick), now);
            moved.system == system && asks_for(
                moved,
                AffHostCall::Build { fiber: id, build: f, tick, util },
            )
        }),
        ({
            let moved = system.performing(id, util, supervisor, AffRequest::Misuse, now);
            breaks(system, moved, id, AffFault::Misuse)
        }),
{
}

/// A fork leads to a child with the body that was forked, under the supervisor of
/// its parent, which gets a handle of it.
pub proof fn law_fork_makes_a_child<H>(
    system: SystemView<H>,
    id: usize,
    util: AffUtil<H>,
    supervisor: Option<usize>,
    immediate: bool,
    node: AffNodeRef<H>,
    now: u128,
)
    ensures
        ({
            let moved = system.performing(
                id,
                util,
                supervisor,
                AffRequest::Fork(immediate, node),
                now,
            );
            if system.runtime.next_id + system.runtime.natives < usize::MAX {
                &&& moved.system == system.bearing(
                    crate::branches::AffBirth {
                        util,
                        supervisor,
                        owned: true,
                        observer: None,
                        immediate,
                    },
                    node,
                )
                &&& asks_for(
                    moved,
                    AffHostCall::Forked { parent: id, child: system.runtime.next_id },
                )
            } else {
                breaks(system, moved, id, AffFault::Exhausted)
            }
        }),
{
}

/// The system is seen as it is.
pub proof fn law_system_is_seen_as_it_is<H>(system: &AffSystem<H>)
    ensures
        system@.runtime == system.runtime@,
        system@.fibers == system.fibers@,
        system@.runs == system.runs@,
        system@.groups == system.groups@,
        system@.supervisors == system.supervisors@,
        system@.timers == system.timers.queue@,
        system@.pool.jobs == system.pool.jobs@,
        system@.pool.stop == system.pool.stop,
        system@.next_token == system.next_token,
        system@.horizon == system.horizon,
{
}

} // verus!
