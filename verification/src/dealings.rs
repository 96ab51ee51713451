//! What the program can do with fibers: start, join, watch and kill them through
//! their handles, kill them in groups, give up waiting for them, and let go of them.
use crate::ancestry::{
    are_branches, is_awaited, is_below, is_running_leaf, law_deciding_branch_gives_up_the_other,
    runs_below,
};
use crate::consequence::{asks_for, is_nothing, leads_to};
use crate::driver::AffReply;
use crate::effect::living;
use crate::fault::AffFault;
use crate::fiber::FiberView;
use crate::killing::{has_observer, without_observers};
use crate::machine::{AffCancel, AffRequest};
use crate::ordered::{as_map, in_order, lemma_listing_exists, listing};
use crate::parallel::{pending_leaves, ParActionView};
use crate::placement::law_fibers_of_leaves_are_theirs;
use crate::pool::PoolView;
use crate::record::AffFiberCall;
use crate::run::RunView;
use crate::runtime::RuntimeView;
use crate::system::SystemView;
use crate::target::{AffCallback, AffNotice, AffTarget};
use crate::task::{AffHostCall, AffTask};
use crate::util::AffUtil;
use crate::value::{AffNative, AffResult, AffValue};
use crate::waiting::KillManyView;
use vstd::prelude::*;

verus! {

/// Killing fibers together: with none of them whoever waits is told at once.
/// Otherwise they form a group under a token of its own, which begins with all of
/// them to be killed and counted.
pub proof fn law_group_is_formed<H>(
    system: SystemView<H>,
    victims: Seq<usize>,
    error: AffValue<H>,
    target: AffTarget<H>,
)
    ensures
        ({
            let moved = system.killing(victims, error, target);
            if victims.len() == 0 {
                &&& moved.system == system
                &&& leads_to(
                    moved,
                    AffTask::Tell(AffNotice { target, result: Ok(AffValue::Unit) }),
                )
            } else if system.next_token == usize::MAX {
                moved.system == system && asks_for(moved, AffHostCall::Fault(AffFault::Exhausted))
            } else {
                &&& moved.system == (SystemView {
                    groups: system.groups.insert(
                        system.next_token,
                        KillManyView {
                            remaining: victims.len(),
                            victims,
                            error,
                            target,
                            removers: Seq::empty(),
                        },
                    ),
                    next_token: (system.next_token + 1) as usize,
                    ..system
                })
                &&& leads_to(moved, AffTask::KillNext(system.next_token))
            }
        }),
{
}

/// The fibers of a group are killed one after another with the error of the group.
/// A fiber that has not ended is driven before the next one is killed; one that has
/// ended, or is no longer there, is counted at once.
pub proof fn law_victims_are_killed_in_turn<H>(system: SystemView<H>, token: usize, now: u128)
    requires
        system.wf(),
        system.groups.contains_key(token),
        system.groups[token].victims.len() > 0,
    ensures
        ({
            let moved = system.step(AffTask::KillNext(token), now);
            let group = system.groups[token];
            let victim = group.victims[0];
            let fiber = system.fibers[victim];
            let target = AffTarget::Killed(token);
            let counted = AffTask::<H>::Tell(AffNotice { target, result: Ok(AffValue::Unit) });
            &&& moved.call is None
            &&& moved.tasks.len() == 2
            &&& moved.tasks[0] == AffTask::<H>::KillNext(token)
            &&& system.fibers.contains_key(victim) ==> {
                &&& moved.system == (SystemView {
                    runtime: fiber.registered(system.runtime),
                    fibers: system.fibers.insert(victim, fiber.killed(group.error, target)),
                    groups: system.groups.insert(
                        token,
                        KillManyView {
                            victims: group.victims.skip(1),
                            removers: group.removers.push((victim, fiber.next_join)),
                            ..group
                        },
                    ),
                    ..system
                })
                &&& fiber.result is None ==> moved.tasks[1] == AffTask::<H>::Drive(victim)
                &&& fiber.result is Some ==> moved.tasks[1] == counted
            }
            &&& !system.fibers.contains_key(victim) ==> {
                &&& moved.system == (SystemView {
                    groups: system.groups.insert(
                        token,
                        KillManyView { victims: group.victims.skip(1), ..group },
                    ),
                    ..system
                })
                &&& moved.tasks[1] == counted
            }
        }),
{
    let victim = system.groups[token].victims[0];
    if system.fibers.contains_key(victim) {
        assert(system.fiber_fits(victim));
    }
}

/// A group with nobody left to kill, or one that is gone, leads to nothing.
pub proof fn law_killing_comes_to_an_end<H>(system: SystemView<H>, token: usize, now: u128)
    requires
        !system.groups.contains_key(token) || system.groups[token].victims.len() == 0,
    ensures
        is_nothing(system, system.step(AffTask::KillNext(token), now)),
{
}

/// Whether one of these observers is there.
pub open spec fn is_observed<H>(
    fibers: Map<usize, FiberView<H>>,
    removers: Seq<(usize, usize)>,
) -> bool {
    exists|k: int|
        0 <= k < removers.len() && fibers.contains_key((#[trigger] removers[k]).0)
            && fibers[removers[k].0].joins.contains_key(removers[k].1)
}

/// Whether `b` are the fibers `a` without exactly these observers.
pub open spec fn has_lost_observers<H>(
    a: Map<usize, FiberView<H>>,
    b: Map<usize, FiberView<H>>,
    removers: Seq<(usize, usize)>,
) -> bool {
    &&& forall|id: usize| #[trigger] b.contains_key(id) <==> a.contains_key(id)
    &&& forall|id: usize|
        #![trigger b[id]]
        a.contains_key(id) ==> {
            &&& b[id] == (FiberView { joins: b[id].joins, ..a[id] })
            &&& forall|join: usize| #[trigger]
                b[id].joins.contains_key(join) <==> a[id].joins.contains_key(join)
                    && !removers.contains((id, join))
            &&& forall|join: usize|
                b[id].joins.contains_key(join) ==> #[trigger] b[id].joins[join] == a[id].joins[join]
        }
}

proof fn lemma_observers_are_lost<H>(
    fibers: Map<usize, FiberView<H>>,
    removers: Seq<(usize, usize)>,
)
    ensures
        has_lost_observers(fibers, without_observers(fibers, removers), removers),
        has_observer(fibers, removers) <==> is_observed(fibers, removers),
    decreases removers.len(),
{
    if removers.len() > 0 {
        let before = removers.drop_last();
        let last = removers.last();
        let middle = without_observers(fibers, before);
        let after = without_observers(fibers, removers);
        lemma_observers_are_lost(fibers, before);
        assert(removers =~= before.push(last));
        assert forall|pair: (usize, usize)| #[trigger] removers.contains(pair) <==> before.contains(
            pair,
        ) || pair == last by {
            if before.contains(pair) {
                let k = before.index_of(pair);
                assert(removers[k] == pair);
            }
            if pair == last {
                assert(removers[before.len() as int] == pair);
            }
            if removers.contains(pair) && pair != last {
                let k = removers.index_of(pair);
                assert(before[k] == pair);
            }
        }
        assert forall|id: usize|
            #![trigger after[id]]
            fibers.contains_key(id) implies {
            &&& after[id] == (FiberView { joins: after[id].joins, ..fibers[id] })
            &&& forall|join: usize| #[trigger]
                after[id].joins.contains_key(join) <==> fibers[id].joins.contains_key(join)
                    && !removers.contains((id, join))
            &&& forall|join: usize|
                after[id].joins.contains_key(join) ==> #[trigger] after[id].joins[join]
                    == fibers[id].joins[join]
        } by {
            assert(middle.contains_key(id));
            assert(middle[id] == (FiberView { joins: middle[id].joins, ..fibers[id] }));
            assert forall|join: usize| #[trigger]
                after[id].joins.contains_key(join) <==> fibers[id].joins.contains_key(join)
                    && !removers.contains((id, join)) by {
                assert(middle[id].joins.contains_key(join) <==> fibers[id].joins.contains_key(join)
                    && !before.contains((id, join)));
            }
            assert forall|join: usize|
                after[id].joins.contains_key(join) implies #[trigger] after[id].joins[join]
                == fibers[id].joins[join] by {
                assert(middle[id].joins.contains_key(join));
                assert(middle[id].joins[join] == fibers[id].joins[join]);
            }
        }
        if has_observer(fibers, removers) {
            if has_observer(fibers, before) {
                let k = choose|k: int|
                    0 <= k < before.len() && fibers.contains_key((#[trigger] before[k]).0)
                        && fibers[before[k].0].joins.contains_key(before[k].1);
                assert(removers[k] == before[k]);
            } else {
                assert(removers[before.len() as int] == last);
                assert(middle[last.0].joins.contains_key(last.1));
            }
        }
        if is_observed(fibers, removers) {
            let k = choose|k: int|
                0 <= k < removers.len() && fibers.contains_key((#[trigger] removers[k]).0)
                    && fibers[removers[k].0].joins.contains_key(removers[k].1);
            if k < before.len() {
                assert(before[k] == removers[k]);
            } else if before.contains(last) {
                let j = before.index_of(last);
                assert(before[j] == last);
            } else {
                assert(middle[last.0].joins.contains_key(last.1));
            }
        }
    }
}

/// Giving up the wait for a group removes the observers that its kills have left, and
/// no others; no fiber changes otherwise. The wait is over for good where one of them
/// could still be removed and nobody is left to kill; otherwise it goes on without
/// them.
pub proof fn law_wait_for_a_group_is_given_up<H>(system: SystemView<H>, token: usize)
    ensures
        ({
            let next = system.revoking(token);
            let group = system.groups[token];
            if !system.groups.contains_key(token) {
                next == system
            } else {
                &&& has_lost_observers(system.fibers, next.fibers, group.removers)
                &&& next == (SystemView { fibers: next.fibers, groups: next.groups, ..system })
                &&& next.groups == if is_observed(system.fibers, group.removers)
                    && group.victims.len() == 0 {
                    system.groups.remove(token)
                } else {
                    system.groups.insert(
                        token,
                        KillManyView { removers: Seq::empty(), ..group },
                    )
                }
            }
        }),
{
    lemma_observers_are_lost(system.fibers, system.groups[token].removers);
}

/// Taking an observer back takes back this one, from this fiber.
pub proof fn law_observer_is_taken_back<H>(system: SystemView<H>, id: usize, join: usize)
    requires
        system.wf(),
    ensures
        !system.fibers.contains_key(id) ==> system.detaching(id, join) == system,
        system.fibers.contains_key(id) ==> system.detaching(id, join) == (SystemView {
            fibers: system.fibers.insert(
                id,
                FiberView { joins: system.fibers[id].joins.remove(join), ..system.fibers[id] },
            ),
            ..system
        }),
{
    if system.fibers.contains_key(id) {
        assert(system.fiber_fits(id));
    }
}

/// A fiber that the program lets go of is forgotten when it has nothing left to do:
/// at once if it is not registered, and otherwise when it leaves the register.
pub proof fn law_released_fiber_is_forgotten<H>(system: SystemView<H>, id: usize)
    requires
        system.wf(),
    ensures
        !system.fibers.contains_key(id) ==> system.released(id) == system,
        system.fibers.contains_key(id) && !system.runtime.fibers.contains(id) ==> system.released(id)
            == (SystemView { fibers: system.fibers.remove(id), ..system }),
        system.fibers.contains_key(id) && system.runtime.fibers.contains(id) ==> system.released(id)
            == (SystemView {
            fibers: system.fibers.insert(id, FiberView { owned: false, ..system.fibers[id] }),
            ..system
        }),
{
    if system.fibers.contains_key(id) {
        assert(system.fiber_fits(id));
    }
}

/// A set is listed in order: every member, each once, from the smallest to the
/// largest.
pub proof fn law_sets_are_listed_in_order(set: Set<usize>)
    requires
        set.finite(),
    ensures
        forall|i: int, j: int| 0 <= i < j < in_order(set).len() ==> in_order(set)[i] < in_order(set)[j],
        forall|n: usize| #[trigger] in_order(set).contains(n) <==> set.contains(n),
{
    let map = as_map(set);
    assert(map.dom() =~= set);
    lemma_listing_exists(map);
    let entries = listing(map);
    let numbers = in_order(set);
    assert forall|n: usize| #[trigger] numbers.contains(n) <==> set.contains(n) by {
        if numbers.contains(n) {
            let k = numbers.index_of(n);
            assert(map.contains_key(entries[k].0));
        }
        if set.contains(n) {
            assert(map.contains_key(n));
            let k = choose|k: int| 0 <= k < entries.len() && (#[trigger] entries[k]).0 == n;
            assert(numbers[k] == n);
        }
    }
}

proof fn lemma_living<H>(fibers: Map<usize, FiberView<H>>, ids: Seq<usize>)
    requires
        forall|i: int, j: int| 0 <= i < j < ids.len() ==> ids[i] < ids[j],
    ensures
        forall|id: usize| #[trigger]
            living(fibers, ids).contains(id) <==> ids.contains(id) && fibers.contains_key(id),
        forall|i: int, j: int|
            0 <= i < j < living(fibers, ids).len() ==> living(fibers, ids)[i] < living(fibers, ids)[j],
    decreases ids.len(),
{
    if ids.len() > 0 {
        let before = ids.drop_last();
        let last = ids.last();
        let some = living(fibers, before);
        let all = living(fibers, ids);
        lemma_living(fibers, before);
        assert forall|id: usize| #[trigger] ids.contains(id) <==> before.contains(id) || id == last by {
            if ids.contains(id) && id != last {
                assert(before[ids.index_of(id)] == id);
            }
            if before.contains(id) {
                assert(ids[before.index_of(id)] == id);
            }
            if id == last {
                assert(ids[before.len() as int] == id);
            }
        }
        assert forall|id: usize| #[trigger] all.contains(id) <==> ids.contains(id)
            && fibers.contains_key(id) by {
            if some.contains(id) {
                assert(all[some.index_of(id)] == id);
            }
            if all.contains(id) && !some.contains(id) {
                let k = all.index_of(id);
                if k < some.len() {
                    assert(some[k] == id);
                }
            }
            if id == last && fibers.contains_key(id) {
                assert(all[some.len() as int] == id);
            }
        }
        assert forall|i: int, j: int| 0 <= i < j < all.len() implies all[i] < all[j] by {
            if j == some.len() {
                assert(some.contains(some[i]));
                let k = before.index_of(some[i]);
                assert(ids[k] < ids[before.len() as int]);
            }
        }
    }
}

/// All fibers under a supervisor are killed together: those that are there, all of
/// them and no others, the oldest first, with this error; then the effect is run.
pub proof fn law_all_children_are_killed<H>(
    system: SystemView<H>,
    error: AffValue<H>,
    supervisor: usize,
    callback: AffValue<H>,
)
    requires
        system.supervisors.contains_key(supervisor) ==> system.supervisors[supervisor].finite(),
    ensures
        ({
            let children = system.children(supervisor);
            &&& forall|id: usize| #[trigger]
                children.contains(id) <==> system.supervisors.contains_key(supervisor)
                    && system.supervisors[supervisor].contains(id) && system.fibers.contains_key(id)
            &&& forall|i: int, j: int| 0 <= i < j < children.len() ==> children[i] < children[j]
            &&& system.killing_all(error, supervisor, callback) == system.killing(
                children,
                error,
                AffTarget::Effect(callback),
            )
        }),
{
    if system.supervisors.contains_key(supervisor) {
        let set = system.supervisors[supervisor];
        law_sets_are_listed_in_order(set);
        lemma_living(system.fibers, in_order(set));
    }
}

/// What comes of a result for an entry of a run. The result of the whole goes to
/// whoever waits, and the run is gone; a call is made for its entry; leaves that are
/// given up are killed as early exits, and the outcome follows them.
pub proof fn law_results_have_consequences<H>(
    system: SystemView<H>,
    token: usize,
    entry: usize,
    result: AffResult<H>,
)
    ensures
        ({
            let moved = system.settling(token, entry, result);
            let run = system.runs[token];
            let (par, action) = run.par.settle(entry, result);
            let kept = SystemView {
                runs: system.runs.insert(
                    token,
                    RunView { par, fibers: run.fibers, target: run.target },
                ),
                ..system
            };
            if !system.runs.contains_key(token) || entry >= run.par.entries.len() {
                is_nothing(system, moved)
            } else {
                match action {
                    ParActionView::Done(outcome) => {
                        &&& moved.system == (SystemView {
                            runs: system.runs.remove(token),
                            ..system
                        })
                        &&& leads_to(
                            moved,
                            AffTask::Tell(AffNotice { target: run.target, result: outcome }),
                        )
                    },
                    ParActionView::Wait => is_nothing(kept, moved),
                    ParActionView::Call { entry: place, function, argument } => {
                        &&& moved.system == kept
                        &&& asks_for(
                            moved,
                            AffHostCall::Call { run: token, entry: place, function, argument },
                        )
                    },
                    ParActionView::Kill { entry: place, leaves, outcome } => moved == kept.killing(
                        run.fibers_of(leaves),
                        AffValue::Fault(AffFault::EarlyExit),
                        AffTarget::Outcome { run: token, entry: place, outcome },
                    ),
                }
            }
        }),
{
}

/// A parallel computation that is given up as a whole is gone at once. All its
/// leaves that still run are killed with the error, and the wait ends with the last
/// of them; with none of them it ends at once and has nothing to undo.
pub proof fn law_parallel_computation_is_halted<H>(
    system: SystemView<H>,
    id: usize,
    util: AffUtil<H>,
    supervisor: Option<usize>,
    run: usize,
    error: AffValue<H>,
    tick: usize,
    yields: bool,
    now: u128,
)
    ensures
        ({
            let moved = system.performing(
                id,
                util,
                supervisor,
                AffRequest::Native { build: AffNative::Halt(run, error), tick, yields },
                now,
            );
            let victims = if system.runs.contains_key(run) {
                system.runs[run].fibers_of(pending_leaves(system.runs[run].par.entries, 0))
            } else {
                Seq::empty()
            };
            let killing = (SystemView { runs: system.runs.remove(run), ..system }).killing(
                victims,
                error,
                AffTarget::Resolve { fiber: id, tick },
            );
            let cancel = if victims.len() == 0 {
                AffCancel::<H>::Nothing
            } else {
                AffCancel::<H>::Killing(system.next_token)
            };
            &&& moved.system == killing.system
            &&& moved.call == killing.call
            &&& moved.tasks.len() == killing.tasks.len() + 1
            &&& moved.tasks[0] == AffTask::Reply(id, AffReply::Registered(cancel))
            &&& forall|k: int|
                0 <= k < killing.tasks.len() ==> #[trigger] moved.tasks[k + 1] == killing.tasks[k]
        }),
{
}

/// Starting a fiber through its handle: the first start registers it and puts it in
/// the queue, behind those that wait already; any other does nothing.
pub proof fn law_run_starts_a_fiber<H>(system: SystemView<H>, id: usize)
    requires
        system.wf(),
        system.fibers.contains_key(id),
    ensures
        ({
            let called = system.called(id, AffFiberCall::Run);
            let fiber = system.fibers[id];
            &&& called.tasks.len() == 0
            &&& called.answer.join is None
            &&& called.system == started(system, id)
        }),
{
    assert(system.fiber_fits(id));
}

/// The system with fiber `id` started, if it has not been.
pub open spec fn started<H>(system: SystemView<H>, id: usize) -> SystemView<H> {
    let fiber = system.fibers[id];
    if !fiber.started && fiber.result is None {
        SystemView {
            runtime: RuntimeView {
                fibers: system.runtime.fibers.insert(id),
                active: system.runtime.active + 1,
                ..system.runtime
            },
            fibers: system.fibers.insert(id, FiberView { started: true, ..fiber }),
            pool: PoolView { jobs: system.pool.jobs.push(id), ..system.pool },
            ..system
        }
    } else {
        system
    }
}

/// Joining a fiber: the callback takes care of its error and gets its result, at once
/// if the fiber has ended, and the fiber is started if it has not been.
pub proof fn law_join_waits_and_starts<H>(
    system: SystemView<H>,
    id: usize,
    callback: AffValue<H>,
)
    requires
        system.wf(),
        system.fibers.contains_key(id),
    ensures
        ({
            let called = system.called(id, AffFiberCall::Join(callback));
            let fiber = system.fibers[id];
            let target = AffTarget::Foreign { callback, util: fiber.util };
            let watched = SystemView {
                runtime: fiber.forgiven(false, system.runtime),
                fibers: system.fibers.insert(
                    id,
                    fiber.observed(false, AffCallback::Deliver(target)),
                ),
                ..system
            };
            &&& called.system == started(watched, id)
            &&& called.answer.join == Some(fiber.next_join)
            &&& fiber.result is None ==> called.tasks.len() == 0
            &&& fiber.result is Some ==> called.tasks.len() == 1 && called.tasks[0]
                == AffTask::Tell(AffNotice { target, result: fiber.result->0 })
        }),
{
    assert(system.fiber_fits(id));
}

/// Watching a fiber: the handler gets its result, at once if the fiber has ended; who
/// takes care of an error is for the watcher to say; and the fiber is not started.
pub proof fn law_watching_does_not_start<H>(
    system: SystemView<H>,
    id: usize,
    rethrow: bool,
    handler: AffValue<H>,
)
    requires
        system.wf(),
        system.fibers.contains_key(id),
    ensures
        ({
            let called = system.called(id, AffFiberCall::OnComplete { rethrow, handler });
            let fiber = system.fibers[id];
            let target = AffTarget::Foreign { callback: handler, util: fiber.util };
            &&& called.system == (SystemView {
                runtime: fiber.forgiven(rethrow, system.runtime),
                fibers: system.fibers.insert(
                    id,
                    fiber.observed(rethrow, AffCallback::Deliver(target)),
                ),
                ..system
            })
            &&& called.answer.join == Some(fiber.next_join)
            &&& fiber.result is None ==> called.tasks.len() == 0
            &&& fiber.result is Some ==> called.tasks.len() == 1 && called.tasks[0]
                == AffTask::Tell(AffNotice { target, result: fiber.result->0 })
        }),
{
    assert(system.fiber_fits(id));
}

/// Killing a fiber: the kill reaches it with this error, it is registered if it had
/// not been started, and it is driven at once; the callback learns of its end. For a
/// fiber that has ended the callback is told at once.
pub proof fn law_kill_reaches_the_fiber<H>(
    system: SystemView<H>,
    id: usize,
    error: AffValue<H>,
    callback: AffValue<H>,
)
    requires
        system.wf(),
        system.fibers.contains_key(id),
    ensures
        ({
            let called = system.called(id, AffFiberCall::Kill(error, callback));
            let fiber = system.fibers[id];
            let target = AffTarget::Foreign { callback, util: fiber.util };
            &&& called.system == (SystemView {
                runtime: fiber.registered(system.runtime),
                fibers: system.fibers.insert(id, fiber.killed(error, target)),
                ..system
            })
            &&& called.answer.join == Some(fiber.next_join)
            &&& called.tasks.len() == 1
            &&& fiber.result is None ==> called.tasks[0] == AffTask::<H>::Drive(id)
            &&& fiber.result is Some ==> called.tasks[0] == AffTask::<H>::Tell(
                AffNotice { target, result: Ok(AffValue::Unit) },
            )
        }),
{
    assert(system.fiber_fits(id));
}

/// A handle tells whether its fiber still waits to be started, and asking changes
/// nothing. A handle of a fiber that is gone does nothing.
pub proof fn law_handles_tell_the_truth<H>(
    system: SystemView<H>,
    id: usize,
    call: AffFiberCall<H>,
)
    ensures
        system.fibers.contains_key(id) ==> system.called(id, call).answer.suspended == (
        !system.fibers[id].started && system.fibers[id].result is None),
        system.called(id, AffFiberCall::<H>::IsSuspended).system == system,
        system.called(id, AffFiberCall::<H>::IsSuspended).tasks.len() == 0,
        system.called(id, AffFiberCall::<H>::IsSuspended).answer.join is None,
        !system.fibers.contains_key(id) ==> {
            &&& system.called(id, call).system == system
            &&& system.called(id, call).tasks.len() == 0
            &&& system.called(id, call).answer.join is None
            &&& !system.called(id, call).answer.suspended
        },
{
}

/// When a run is halted, or a branch of it is given up, the fiber of every leaf that
/// still runs is among the victims.
pub proof fn law_no_running_leaf_survives_a_halt<H>(run: RunView<H>, leaf: int)
    requires
        run.wf(),
        is_running_leaf(run.par.entries, leaf),
    ensures
        run.fibers_of(pending_leaves(run.par.entries, 0)).contains(run.fibers[leaf as usize]),
{
    let leaves = pending_leaves(run.par.entries, 0);
    crate::ancestry::law_given_up_leaves_are_all_that_run_below(run.par.entries, 0);
    crate::ancestry::law_stopping_gives_up_every_leaf(run.par.entries, leaf);
    assert forall|k: int| 0 <= k < leaves.len() implies run.fibers.contains_key(
        #[trigger] leaves[k],
    ) by {
        assert(leaves.contains(leaves[k]));
        assert(run.par.entries[leaves[k] as int].kind is Leaf);
    }
    law_fibers_of_leaves_are_theirs(run, leaves);
    let k = leaves.index_of(leaf as usize);
    assert(run.fibers_of(leaves)[k] == run.fibers[leaf as usize]);
}

/// Whether a fiber is that of a leaf which still runs below entry `i`.
pub open spec fn is_fiber_below<H>(run: RunView<H>, i: int, fiber: usize) -> bool {
    exists|leaf: int| #[trigger]
        is_running_leaf(run.par.entries, leaf) && is_below(run.par.entries, leaf, i)
            && run.fibers[leaf as usize] == fiber
}

/// A branch that decides gives up the other one for good: the fiber of every leaf
/// that still runs below the other branch, and of no other, is killed as an early
/// exit, and the outcome follows the last of them.
pub proof fn law_given_up_branch_is_killed_as_a_whole<H>(
    system: SystemView<H>,
    token: usize,
    p: usize,
    i: usize,
    other: usize,
    result: AffResult<H>,
)
    requires
        system.wf(),
        system.next_token < usize::MAX,
        system.runs.contains_key(token),
        is_awaited(system.runs[token].par, p, i),
        are_branches(system.runs[token].par, p, i, other),
        system.runs[token].par.entries[p as int].kind is Apply && result is Err
            || system.runs[token].par.entries[p as int].kind is Alt && result is Ok,
        runs_below(system.runs[token].par.entries, other as int),
    ensures
        ({
            let run = system.runs[token];
            let entries = run.par.entries;
            let moved = system.settling(token, i, result);
            let group = moved.system.groups[system.next_token];
            &&& moved.system.groups.contains_key(system.next_token)
            &&& leads_to(moved, AffTask::KillNext(system.next_token))
            &&& group.error == AffValue::<H>::Fault(AffFault::EarlyExit)
            &&& group.target == (AffTarget::Outcome { run: token, entry: p, outcome: result })
            &&& group.remaining == group.victims.len()
            &&& forall|leaf: int|
                #![trigger is_running_leaf(entries, leaf)]
                is_running_leaf(entries, leaf) && is_below(entries, leaf, other as int)
                    ==> group.victims.contains(run.fibers[leaf as usize])
            &&& forall|k: int|
                0 <= k < group.victims.len() ==> is_fiber_below(run, other as int, #[trigger] group.victims[k])
        }),
{
    let run = system.runs[token];
    let entries = run.par.entries;
    law_deciding_branch_gives_up_the_other(run.par, p, i, other, result);
    law_results_have_consequences(system, token, i, result);
    let (par, action) = run.par.settle(i, result);
    let leaves = action->Kill_leaves;
    let kept = SystemView {
        runs: system.runs.insert(token, RunView { par, fibers: run.fibers, target: run.target }),
        ..system
    };
    assert forall|k: int| 0 <= k < leaves.len() implies run.fibers.contains_key(
        #[trigger] leaves[k],
    ) by {
        assert(leaves.contains(leaves[k]));
        assert(entries[leaves[k] as int].kind is Leaf);
    }
    law_fibers_of_leaves_are_theirs(run, leaves);
    let victims = run.fibers_of(leaves);
    law_group_is_formed(
        kept,
        victims,
        AffValue::Fault(AffFault::EarlyExit),
        AffTarget::Outcome { run: token, entry: p, outcome: result },
    );
    let running = choose|leaf: int| #[trigger]
        is_running_leaf(entries, leaf) && is_below(entries, leaf, other as int);
    assert(leaves.contains(running as usize));
    assert forall|leaf: int|
        #![trigger is_running_leaf(entries, leaf)]
        is_running_leaf(entries, leaf) && is_below(entries, leaf, other as int) implies victims.contains(
        run.fibers[leaf as usize],
    ) by {
        assert(leaves.contains(leaf as usize));
        let k = leaves.index_of(leaf as usize);
        assert(victims[k] == run.fibers[leaves[k]]);
    }
    assert forall|k: int| 0 <= k < victims.len() implies is_fiber_below(
        run,
        other as int,
        #[trigger] victims[k],
    ) by {
        assert(leaves.contains(leaves[k]));
        assert(is_running_leaf(entries, leaves[k] as int));
        assert(victims[k] == run.fibers[leaves[k]]);
    }
}

} // verus!
