//! What the functions of the library promise to those who call them, put in terms of
//! what goes in and what comes out.
use crate::branches::{aff_run_parallel, leaf_fibers};
use crate::driver::{aff_run, is_reply_for, AffDriver, AffPause, AffReply, AffWait, DriveView};
use crate::effect::{
    aff_cancel_wait, aff_no_cancel, AffMapped, Effect_Aff__bind, Effect_Aff__catchError,
    Effect_Aff__delay, Effect_Aff__fork, Effect_Aff__killAll, Effect_Aff__liftEffect,
    Effect_Aff__makeFiber, Effect_Aff__makeSupervisedFiber, Effect_Aff__map, Effect_Aff__parAffAlt,
    Effect_Aff__parAffApply, Effect_Aff__parAffMap, Effect_Aff__pure, Effect_Aff__sequential,
    Effect_Aff__throwError, Effect_Aff_generalBracket, Effect_Aff_makeAff,
};
use crate::entry::{
    aff_native_completed, aff_native_joined, aff_notice_thrown, aff_run_main_with_workers,
    purust_aff_run_main, purust_aff_spawn_native, AffEntry, AffExit, AffMainOutcome,
};
use crate::fault::AffFault;
use crate::fiber::{turn_of, AffFiber, AffTurn, FiberView};
use crate::killing::aff_kill_many;
use crate::layout::{lay_out, planned_leaves, planned_run};
use crate::machine::{AffCancel, AffEvent, AffFrame, AffMachine, AffRequest, MachineView};
use crate::meeting::{
    AffMeeting, CallbackGate, Rendezvous, Test_Concurrency_arrive, Test_Concurrency_enqueueGated,
    Test_Concurrency_releaseCallbacks, Test_Concurrency_threadCount,
};
use crate::ordered::{in_order, pop_first};
use crate::parallel::{pending_leaves, AffParAction, AffParRun};
use crate::pool::{
    aff_default_workers, default_workers, parse_size, parsed_size, AffPoolQueue, AffWork,
};
use crate::record::{aff_fiber_record, AffFiberAnswer, AffFiberCall};
use crate::run::{AffRun, RunView};
use crate::runtime::{
    aff_record_panic, AffNativeOutcome, AffNoticeOutcome, AffRuntime, RuntimeView,
};
use crate::supervisor::AffSupervisor;
use crate::system::{AffSystem, SystemView};
use crate::table::AffTable;
use crate::target::{AffCallback, AffNotice, AffTarget};
use crate::task::{aff_unwind, unwound, AffCaught, AffHostCall, AffTask};
use crate::timer::{AffTimerAction, AffTimerKey, AffTimers};
use crate::util::{AffCall, AffUtil};
use crate::value::{
    aff_box, aff_drop_links, aff_new, aff_node, aff_unit, share_result, AffConditions, AffLinks,
    AffNative, AffNode, AffNodeRef, AffResult, AffValue,
};
use crate::waiting::AffKillMany;
use std::collections::{BTreeMap, VecDeque};
use vstd::prelude::*;

verus! {

/// The description in a value.
pub open spec fn description<H>(value: AffValue<H>) -> AffNode<H> {
    value->Aff_0.node
}

/// Values, errors, effects and builders become the computations that return, throw,
/// run and register them.
pub proof fn law_values_become_computations<H>(x: AffValue<H>, made: AffValue<H>)
    ensures
        call_ensures(Effect_Aff__pure::<H>, (x,), made) ==> made is Aff && description(made)
            == AffNode::Pure(x),
        call_ensures(Effect_Aff__throwError::<H>, (x,), made) ==> made is Aff && description(made)
            == AffNode::Throw(x),
        call_ensures(Effect_Aff__liftEffect::<H>, (x,), made) ==> made is Aff && description(made)
            == AffNode::Sync(x),
        call_ensures(Effect_Aff_makeAff::<H>, (x,), made) ==> made is Aff && description(made)
            == AffNode::Async(x),
{
}

/// Computations are put together from the computations and functions that are given,
/// each in its place.
pub proof fn law_computations_are_put_together<H>(
    aff: AffNodeRef<H>,
    right: AffNodeRef<H>,
    f: AffValue<H>,
    flag: bool,
    options: AffConditions<H>,
    made: AffValue<H>,
)
    ensures
        call_ensures(Effect_Aff__bind::<H>, (AffValue::Aff(aff), f), made) ==> made is Aff
            && description(made) == AffNode::Bind(aff, f),
        call_ensures(Effect_Aff__catchError::<H>, (AffValue::Aff(aff), f), made) ==> made is Aff
            && description(made) == AffNode::Catch(aff, f),
        call_ensures(Effect_Aff__fork::<H>, (flag, AffValue::Aff(aff)), made) ==> made is Aff
            && description(made) == AffNode::<H>::Fork(flag, aff),
        call_ensures(
            Effect_Aff_generalBracket::<H>,
            (AffValue::Aff(aff), options, f),
            made,
        ) ==> made is Aff && description(made) == AffNode::Bracket(aff, options, f),
        call_ensures(Effect_Aff__sequential::<H>, (AffValue::Aff(aff),), made) ==> made is Aff
            && description(made) == AffNode::<H>::Sequential(aff),
        call_ensures(Effect_Aff__parAffMap::<H>, (f, AffValue::Aff(aff)), made) ==> made is Aff
            && description(made) == AffNode::ParMap(f, aff),
        call_ensures(
            Effect_Aff__parAffApply::<H>,
            (AffValue::Aff(aff), AffValue::Aff(right)),
            made,
        ) ==> made is Aff && description(made) == AffNode::<H>::ParApply(aff, right),
        call_ensures(
            Effect_Aff__parAffAlt::<H>,
            (AffValue::Aff(aff), AffValue::Aff(right)),
            made,
        ) ==> made is Aff && description(made) == AffNode::<H>::ParAlt(aff, right),
{
}

/// Mapping a value that is there already is one call of the function with it; any
/// other computation is run first.
pub proof fn law_mapping_calls_or_waits<H>(
    f: AffValue<H>,
    aff: &AffNodeRef<H>,
    value: AffValue<H>,
    mapped: AffMapped<H>,
)
    requires
        call_ensures(Effect_Aff__map::<H>, (f, AffValue::Aff(*aff)), mapped),
    ensures
        aff.node == AffNode::Pure(value) ==> mapped == AffMapped::Ready(
            AffCall { function: f, argument: value },
        ),
        !(aff.node is Pure) ==> mapped is Described && mapped->Described_0 is Aff && description(
            mapped->Described_0,
        ) == AffNode::Mapping(*aff, f),
{
}

/// A delay waits for exactly its duration and gives way; giving up a wait for a group
/// revokes it.
pub proof fn law_waits_are_described<H>(
    delay: Option<u128>,
    token: usize,
    made: AffValue<H>,
    node: &AffNodeRef<H>,
    cancel: AffCancel<H>,
)
    ensures
        call_ensures(Effect_Aff__delay::<H>, (delay,), made) ==> made is Aff && description(made)
            == (AffNode::<H>::NativeAsync {
            yield_after_registration: true,
            build: AffNative::Delay(delay),
        }),
        call_ensures(aff_cancel_wait::<H>, (token,), *node) ==> node.node == AffNode::<H>::Revoke(
            token,
        ),
        call_ensures(aff_no_cancel::<H>, (), cancel) ==> cancel is Nothing,
{
}

/// Boxing keeps descriptions and values as they are.
pub proof fn law_boxing_keeps<H>(
    node: &AffNode<H>,
    shared: &AffNodeRef<H>,
    value: AffValue<H>,
    result: AffResult<H>,
    same: AffResult<H>,
)
    ensures
        call_ensures(aff_new::<H>, (*node,), *shared) ==> shared.node == *node,
        call_ensures(aff_box::<H>, (*node,), value) ==> value is Aff && description(value) == *node,
        call_ensures(aff_node::<H>, (&value,), *shared) ==> value == AffValue::Aff(*shared),
        call_ensures(aff_unit::<H>, (), *shared) ==> shared.node == AffNode::<H>::Pure(
            AffValue::Unit,
        ),
        call_ensures(share_result::<H>, (&result,), same) ==> same == result,
{
}

/// What is linked below a description is what it was made of, from left to right.
pub proof fn law_links_are_the_parts<H>(
    one: AffNodeRef<H>,
    two: AffNodeRef<H>,
    f: AffValue<H>,
    options: AffConditions<H>,
    flag: bool,
    links: AffLinks<H>,
)
    ensures
        call_ensures(aff_drop_links::<H>, (AffNode::Bind(one, f),), links) ==> links
            == AffLinks::<H>::One(one),
        call_ensures(aff_drop_links::<H>, (AffNode::Mapping(one, f),), links) ==> links
            == AffLinks::<H>::One(one),
        call_ensures(aff_drop_links::<H>, (AffNode::Catch(one, f),), links) ==> links
            == AffLinks::<H>::One(one),
        call_ensures(aff_drop_links::<H>, (AffNode::Bracket(one, options, f),), links) ==> links
            == AffLinks::<H>::One(one),
        call_ensures(aff_drop_links::<H>, (AffNode::<H>::Fork(flag, one),), links) ==> links
            == AffLinks::<H>::One(one),
        call_ensures(aff_drop_links::<H>, (AffNode::<H>::Sequential(one),), links) ==> links
            == AffLinks::<H>::One(one),
        call_ensures(aff_drop_links::<H>, (AffNode::ParMap(f, one),), links) ==> links
            == AffLinks::<H>::One(one),
        call_ensures(aff_drop_links::<H>, (AffNode::<H>::ParApply(one, two),), links) ==> links
            == AffLinks::<H>::Two(one, two),
        call_ensures(aff_drop_links::<H>, (AffNode::<H>::ParAlt(one, two),), links) ==> links
            == AffLinks::<H>::Two(one, two),
        call_ensures(aff_drop_links::<H>, (AffNode::Pure(f),), links) ==> links is Leaf,
{
}

/// Results cross over with the functions of the program: a value to the right and
/// back, an error to the left and back.
pub proof fn law_functions_of_the_program_are_used<H>(
    util: AffUtil<H>,
    x: AffValue<H>,
    call: AffCall<H>,
    decoded: Result<AffCall<H>, AffCall<H>>,
)
    ensures
        call_ensures(AffUtil::<H>::encode, (&util, Ok(x)), call) ==> call == (AffCall {
            function: util.right,
            argument: x,
        }),
        call_ensures(AffUtil::<H>::encode, (&util, Err(x)), call) ==> call == (AffCall {
            function: util.left,
            argument: x,
        }),
        call_ensures(AffUtil::<H>::probe, (&util, x), call) ==> call == (AffCall {
            function: util.is_left,
            argument: x,
        }),
        call_ensures(AffUtil::<H>::decode, (&util, x, true), decoded) ==> decoded is Err
            && decoded->Err_0 == (AffCall { function: util.from_left, argument: x }),
        call_ensures(AffUtil::<H>::decode, (&util, x, false), decoded) ==> decoded is Ok
            && decoded->Ok_0 == (AffCall { function: util.from_right, argument: x }),
{
}

/// A machine does what its descriptions, frames and events mean.
pub proof fn law_machine_keeps_its_word<H>(
    machine: &mut AffMachine<H>,
    made: AffMachine<H>,
    node: &AffNodeRef<H>,
    frame: AffFrame<H>,
    event: AffEvent<H>,
    result: AffResult<H>,
    request: Option<AffRequest<H>>,
)
    ensures
        call_ensures(AffMachine::<H>::new, (*node,), made) ==> made@ == MachineView::<H>::start(
            *node,
        ),
        call_ensures(AffMachine::<H>::deliver, (machine, event), request) ==> final(machine)@
            == old(machine)@.deliver(event).0 && request == old(machine)@.deliver(event).1,
        call_ensures(AffMachine::<H>::instruction, (machine, *node), request) ==> final(machine)@
            == old(machine)@.instruction(node.node).0 && request == old(machine)@.instruction(
            node.node,
        ).1,
        call_ensures(AffMachine::<H>::unwind, (machine, frame, result), request) ==> final(machine)@
            == old(machine)@.unwind(frame, result).0 && request == old(machine)@.unwind(
            frame,
            result,
        ).1,
{
}

/// A run goes through its rounds, and takes up a reply where it had stopped.
pub proof fn law_runs_keep_their_word<H>(
    machine: AffMachine<H>,
    delivery: VecDeque<AffEvent<H>>,
    opening: bool,
    events: &mut VecDeque<AffEvent<H>>,
    driver: AffDriver<H>,
    reply: AffReply<H>,
    wait: AffWait,
    fits: bool,
    pause: AffPause<H>,
)
    ensures
        call_ensures(aff_run::<H>, (machine, delivery, opening, events), pause) ==> pause.turn(
            final(events)@,
        ) == (DriveView {
            machine: machine@,
            backlog: delivery@,
            fresh: opening,
            events: old(events)@,
        }).run(),
        call_ensures(AffDriver::<H>::resume, (driver, reply, events), pause) ==> pause.turn(
            final(events)@,
        ) == (DriveView {
            machine: driver.machine@,
            backlog: driver.backlog@,
            fresh: driver.fresh,
            events: old(events)@,
        }).resumed(driver.wait, reply),
        call_ensures(is_reply_for::<H>, (wait, &reply), fits) ==> fits
            == crate::driver::reply_fits(wait, reply),
{
}

/// A fiber is made, started, told of events and observed as it should be.
pub proof fn law_fiber_keeps_its_word<H>(
    fiber: &mut AffFiber<H>,
    runtime: &mut AffRuntime<H>,
    event: AffEvent<H>,
    rethrow: bool,
    callback: AffCallback<H>,
    join: usize,
    flag: bool,
    observed: (usize, Option<AffNotice<H>>),
)
    ensures
        call_ensures(AffFiber::<H>::begin, (fiber, runtime), flag) ==> {
            &&& flag == (!old(fiber)@.started && old(fiber)@.result is None)
            &&& flag ==> final(fiber)@ == (FiberView { started: true, ..old(fiber)@ })
            &&& !flag ==> final(fiber)@ == old(fiber)@
            &&& final(runtime)@ == old(fiber)@.registered(old(runtime)@)
        },
        call_ensures(AffFiber::<H>::event, (fiber, runtime, event), flag) ==> {
            &&& flag == old(fiber)@.result is None
            &&& flag ==> final(fiber)@ == old(fiber)@.with_event(event)
            &&& !flag ==> final(fiber)@ == old(fiber)@
            &&& event is Kill ==> final(runtime)@ == old(fiber)@.registered(old(runtime)@)
            &&& !(event is Kill) ==> final(runtime)@ == old(runtime)@
        },
        call_ensures(AffFiber::<H>::observe, (fiber, runtime, rethrow, callback), observed) ==> {
            &&& observed.0 == old(fiber)@.next_join
            &&& old(fiber)@.result is None ==> observed.1 is None
            &&& old(fiber)@.result is Some ==> observed.1 == Some(
                callback.notice(old(fiber)@.result->0),
            )
            &&& final(fiber)@ == old(fiber)@.observed(rethrow, callback)
            &&& final(runtime)@ == old(fiber)@.forgiven(rethrow, old(runtime)@)
        },
        call_ensures(AffFiber::<H>::revoke, (fiber, join), flag) ==> {
            &&& flag == old(fiber)@.joins.contains_key(join)
            &&& final(fiber)@ == (FiberView {
                joins: old(fiber)@.joins.remove(join),
                ..old(fiber)@
            })
        },
        call_ensures(AffFiber::<H>::is_suspended, (&*old(fiber),), flag) ==> flag == (
        !old(fiber).started && old(fiber).result is None),
{
}

/// A fiber is killed, ended and driven as it should be.
pub proof fn law_fiber_ends_as_it_should<H>(
    fiber: &mut AffFiber<H>,
    runtime: &mut AffRuntime<H>,
    error: AffValue<H>,
    target: AffTarget<H>,
    result: AffResult<H>,
    reply: AffReply<H>,
    killed: (usize, Option<AffNotice<H>>, bool),
    ended: bool,
    notice: Option<AffNotice<H>>,
    turn: AffTurn<H>,
)
    ensures
        call_ensures(AffFiber::<H>::kill, (fiber, runtime, error, target), killed) ==> {
            &&& killed.0 == old(fiber)@.next_join
            &&& killed.2 == old(fiber)@.result is None
            &&& old(fiber)@.result is None ==> killed.1 is None
            &&& old(fiber)@.result is Some ==> killed.1 == Some(
                AffNotice::<H> { target, result: Ok(AffValue::Unit) },
            )
            &&& final(fiber)@ == old(fiber)@.killed(error, target)
            &&& final(runtime)@ == old(fiber)@.registered(old(runtime)@)
        },
        call_ensures(AffFiber::<H>::complete, (fiber, runtime, result), ended) ==> {
            &&& ended == old(fiber)@.result is None
            &&& ended ==> final(fiber)@ == old(fiber)@.completed(result) && final(runtime)@ == old(fiber)@.reported(result, old(runtime)@)
            &&& !ended ==> final(fiber)@ == old(fiber)@ && final(runtime)@ == old(runtime)@
        },
        call_ensures(AffFiber::<H>::next_notice, (fiber,), notice) ==> {
            &&& old(fiber)@.notices.len() == 0 ==> notice is None && final(fiber)@ == old(fiber)@
            &&& old(fiber)@.notices.len() > 0 ==> notice == Some(old(fiber)@.notices[0])
                && final(fiber)@ == (FiberView {
                notices: old(fiber)@.notices.skip(1),
                ..old(fiber)@
            })
        },
        call_ensures(AffFiber::<H>::drive_inner, (fiber,), turn) ==> {
            let drivable = old(fiber)@.started && !old(fiber)@.running && old(fiber)@.result is None;
            &&& drivable ==> turn == turn_of(old(fiber)@.drive().run()) && final(fiber)@ == old(fiber)@.turned(old(fiber)@.drive().run())
            &&& !drivable ==> turn is Idle && final(fiber)@ == old(fiber)@
        },
        call_ensures(AffFiber::<H>::resume, (fiber, reply), turn) ==> {
            &&& old(fiber)@.awaits(reply) ==> turn == turn_of(old(fiber)@.resumed(reply))
                && final(fiber)@ == old(fiber)@.turned(old(fiber)@.resumed(reply))
            &&& !old(fiber)@.awaits(reply) ==> turn is Idle && final(fiber)@ == old(fiber)@
        },
{
}

/// A new fiber gets the next identifier.
pub proof fn law_new_fiber_is_numbered<H>(
    runtime: &mut AffRuntime<H>,
    util: AffUtil<H>,
    supervisor: Option<usize>,
    owned: bool,
    node: &AffNodeRef<H>,
    fiber: AffFiber<H>,
)
    requires
        old(runtime)@.next_id < usize::MAX,
    ensures
        call_ensures(AffFiber::<H>::new, (runtime, util, supervisor, owned, *node), fiber) ==> {
            &&& fiber@ == FiberView::fresh(
                old(runtime)@.next_id,
                util,
                supervisor,
                owned,
                *node,
            )
            &&& final(runtime)@ == (RuntimeView {
                next_id: (old(runtime)@.next_id + 1) as usize,
                ..old(runtime)@
            })
        },
{
}

/// What all fibers share is changed as it should be.
pub proof fn law_runtime_keeps_its_word<H>(
    runtime: &mut AffRuntime<H>,
    made: AffRuntime<H>,
    id: usize,
    error: AffValue<H>,
    outcome: AffNoticeOutcome<H>,
    n: usize,
    flag: bool,
)
    ensures
        call_ensures(AffRuntime::<H>::new, (), made) ==> made@ == (RuntimeView::<H> {
            next_id: 1,
            active: 0,
            fibers: Set::empty(),
            errors: Map::empty(),
            panicked: false,
            natives: 0,
        }),
        call_ensures(AffRuntime::<H>::has_room_for, (&*old(runtime), n), flag) ==> flag == (old(runtime)@.next_id + old(runtime)@.natives + n <= usize::MAX),
        call_ensures(AffRuntime::<H>::fresh_id, (runtime,), id) ==> id == old(runtime)@.next_id
            && final(runtime)@ == old(runtime)@.with_next_id(),
        call_ensures(AffRuntime::<H>::enter, (runtime, id), ()) ==> final(runtime)@ == old(runtime)@.entered(id),
        call_ensures(AffRuntime::<H>::retire, (runtime, id), ()) ==> final(runtime)@ == old(runtime)@.retired(id),
        call_ensures(AffRuntime::<H>::is_registered, (&*old(runtime), id), flag) ==> flag == old(runtime)@.fibers.contains(id),
        call_ensures(AffRuntime::<H>::record_error, (runtime, id, error), ()) ==> final(runtime)@
            == (RuntimeView { errors: old(runtime)@.errors.insert(id, error), ..old(runtime)@ }),
        call_ensures(AffRuntime::<H>::forgive, (runtime, id), ()) ==> final(runtime)@ == (
        RuntimeView { errors: old(runtime)@.errors.remove(id), ..old(runtime)@ }),
        call_ensures(AffRuntime::<H>::notice_outcome, (runtime, outcome), ()) ==> final(runtime)@
            == old(runtime)@.noticed(outcome),
        call_ensures(AffRuntime::<H>::native_spawned, (runtime,), ()) ==> final(runtime)@ == old(runtime)@.with_native(),
        call_ensures(AffRuntime::<H>::native_completed, (runtime,), ()) ==> final(runtime)@ == old(runtime)@.without_native(),
        call_ensures(aff_record_panic::<H>, (runtime,), flag) ==> flag == !old(runtime)@.panicked
            && final(runtime)@ == (RuntimeView { panicked: true, ..old(runtime)@ }),
{
}

/// A parallel run is laid out, settled, looked through and stopped as it should be.
pub proof fn law_parallel_run_keeps_its_word<H>(
    run: &mut AffParRun<H>,
    i: usize,
    result: AffResult<H>,
    action: AffParAction<H>,
    leaves: Vec<usize>,
    root: &AffNodeRef<H>,
    laid: (AffParRun<H>, Vec<(usize, AffNodeRef<H>)>),
)
    ensures
        call_ensures(AffParRun::<H>::settle, (run, i, result), action) ==> (
            final(run)@,
            action@,
        ) == old(run)@.settle(i, result),
        call_ensures(AffParRun::<H>::pending, (&*old(run), i), leaves) ==> leaves@
            == pending_leaves(old(run)@.entries, i as int),
        call_ensures(AffParRun::<H>::cancel, (run,), leaves) ==> {
            &&& leaves@ == pending_leaves(old(run)@.entries, 0)
            &&& final(run)@.entries == old(run)@.entries
            &&& final(run)@.stopped
        },
        call_ensures(lay_out::<H>, (*root,), laid) ==> laid.0@ == planned_run(*root) && laid.1@
            == planned_leaves(*root),
{
}

/// The system is moved by tasks and handles, and changed from outside, as it should
/// be.
pub proof fn law_system_keeps_its_word<H>(
    system: &mut AffSystem<H>,
    agenda: &mut Vec<AffTask<H>>,
    made: AffSystem<H>,
    task: AffTask<H>,
    now: u128,
    call: Option<AffHostCall<H>>,
    id: usize,
    handle: AffFiberCall<H>,
    answer: AffFiberAnswer,
    join: usize,
    found: bool,
    horizon: u128,
)
    ensures
        call_ensures(AffSystem::<H>::step, (system, task, now, agenda), call) ==> {
            let moved = old(system)@.step(task, now);
            &&& final(system)@ == moved.system
            &&& final(agenda)@ == old(agenda)@ + moved.tasks
            &&& call == moved.call
        },
        call_ensures(aff_fiber_record::<H>, (system, id, handle, agenda), answer) ==> {
            let called = old(system)@.called(id, handle);
            &&& final(system)@ == called.system
            &&& final(agenda)@ == old(agenda)@ + called.tasks
            &&& answer == called.answer
        },
        call_ensures(AffSystem::<H>::detach, (system, id, join), found) ==> {
            &&& found == (old(system)@.fibers.contains_key(id)
                && old(system)@.fibers[id].joins.contains_key(join))
            &&& final(system)@ == old(system)@.detaching(id, join)
        },
        call_ensures(AffSystem::<H>::release, (system, id), ()) ==> final(system)@ == old(system)@.released(id),
        call_ensures(AffSystem::<H>::dismiss, (system, id), ()) ==> final(system)@ == (SystemView {
            supervisors: old(system)@.supervisors.remove(id),
            ..old(system)@
        }),
        call_ensures(AffSystem::<H>::shut_down, (system,), ()) ==> {
            &&& final(system)@ == (SystemView { pool: final(system)@.pool, ..old(system)@ })
            &&& final(system)@.pool.jobs.len() == 0
            &&& final(system)@.pool.stop
        },
        call_ensures(AffSystem::<H>::new, (horizon,), made) ==> {
            &&& made@.runtime.next_id == 1 && made@.runtime.active == 0
            &&& made@.runtime.natives == 0 && !made@.runtime.panicked
            &&& made@.runtime.errors == Map::<usize, AffValue<H>>::empty()
            &&& made@.runtime.fibers == Set::<usize>::empty()
            &&& made@.fibers == Map::<usize, FiberView<H>>::empty()
            &&& made@.timers == Map::<AffTimerKey, AffTarget<H>>::empty()
            &&& made@.pool.jobs.len() == 0 && !made@.pool.stop
            &&& made@.horizon == horizon
        },
{
}

/// Workers and timers take from the system what is due, and leave the rest of it
/// alone.
pub proof fn law_workers_and_timers_leave_the_rest<H>(
    system: &mut AffSystem<H>,
    now: u128,
    work: AffWork<usize>,
    action: AffTimerAction<AffTarget<H>>,
)
    ensures
        call_ensures(AffSystem::<H>::work, (system,), work) ==> {
            &&& final(system)@.pool == old(system)@.pool.working().0
            &&& work == old(system)@.pool.working().1
            &&& final(system)@ == (SystemView { pool: final(system)@.pool, ..old(system)@ })
        },
        call_ensures(AffSystem::<H>::poll_timers, (system, now), action) ==> {
            &&& crate::timer::is_poll(old(system)@.timers, now, action, final(system)@.timers)
            &&& final(system)@ == (SystemView { timers: final(system)@.timers, ..old(system)@ })
        },
{
}

/// Fibers are made by the program, and killed together, as they should be.
pub proof fn law_program_makes_and_kills_fibers<H>(
    system: &mut AffSystem<H>,
    agenda: &mut Vec<AffTask<H>>,
    util: AffUtil<H>,
    aff: &AffNodeRef<H>,
    fiber: Option<usize>,
    error: AffValue<H>,
    supervisor: usize,
    callback: AffValue<H>,
    killing: (AffNodeRef<H>, Option<AffHostCall<H>>),
)
    ensures
        call_ensures(Effect_Aff__makeFiber::<H>, (system, util, AffValue::Aff(*aff)), fiber) ==> {
            let room = old(system)@.runtime.next_id + old(system)@.runtime.natives < usize::MAX;
            &&& !room ==> fiber is None && final(system)@ == old(system)@
            &&& room ==> fiber == Some(old(system)@.runtime.next_id) && final(system)@ == old(system)@.making(util, None, AffValue::Aff(*aff))
        },
        call_ensures(
            Effect_Aff__makeSupervisedFiber::<H>,
            (system, util, AffValue::Aff(*aff)),
            fiber,
        ) ==> {
            let room = old(system)@.runtime.next_id + old(system)@.runtime.natives < usize::MAX;
            let id = old(system)@.runtime.next_id;
            &&& !room ==> fiber is None && final(system)@ == old(system)@
            &&& room ==> fiber == Some(id) && final(system)@ == (SystemView {
                supervisors: old(system)@.supervisors.insert(id, Set::empty()),
                ..old(system)@.making(util, Some(id), AffValue::Aff(*aff))
            })
        },
        call_ensures(
            Effect_Aff__killAll::<H>,
            (system, error, supervisor, callback, agenda),
            killing,
        ) ==> {
            let moved = old(system)@.killing_all(error, supervisor, callback);
            &&& final(system)@ == moved.system
            &&& final(agenda)@ == old(agenda)@ + moved.tasks
            &&& killing.1 == moved.call
            &&& old(system)@.children(supervisor).len() == 0 ==> killing.0.node
                == AffNode::<H>::Pure(AffValue::Unit)
            &&& old(system)@.children(supervisor).len() > 0 ==> killing.0.node
                == AffNode::<H>::Revoke(old(system)@.next_token)
        },
{
}

/// The entry point takes in what its main effect, its microtasks and its native
/// operations came to.
pub proof fn law_entry_point_keeps_its_word<H>(
    entry: &mut AffEntry<H>,
    system: &mut AffSystem<H>,
    result: AffResult<H>,
    error: AffValue<H>,
    has_jobs: bool,
    leave: bool,
    exit: AffExit<H>,
)
    ensures
        call_ensures(
            AffEntry::<H>::main_ended,
            (entry, system, AffMainOutcome::Returned(result)),
            (),
        ) ==> final(entry).main == result && final(entry).workers == old(entry).workers && final(system)@ == old(system)@,
        call_ensures(
            AffEntry::<H>::main_ended,
            (entry, system, AffMainOutcome::<H>::Panicked),
            (),
        ) ==> final(entry).workers == old(entry).workers && final(system)@ == (SystemView {
            runtime: RuntimeView { panicked: true, ..old(system)@.runtime },
            ..old(system)@
        }),
        call_ensures(
            AffEntry::<H>::drained,
            (&*old(entry), system, AffNoticeOutcome::<H>::Done, has_jobs),
            leave,
        ) ==> final(system)@ == old(system)@ && leave == (old(system)@.runtime.panicked || (old(system)@.runtime.active == 0 && !has_jobs)),
        call_ensures(
            AffEntry::<H>::drained,
            (&*old(entry), system, AffNoticeOutcome::Failed(error), has_jobs),
            leave,
        ) ==> final(system)@ == (SystemView {
            runtime: RuntimeView {
                errors: old(system)@.runtime.errors.insert(0, error),
                ..old(system)@.runtime
            },
            ..old(system)@
        }) && leave == (old(system)@.runtime.panicked || (old(system)@.runtime.active == 0
            && !has_jobs)),
        call_ensures(
            AffEntry::<H>::drained,
            (&*old(entry), system, AffNoticeOutcome::<H>::Panicked, has_jobs),
            leave,
        ) ==> final(system)@.runtime.panicked && leave,
        call_ensures(AffEntry::<H>::exit, (&*old(entry), &*old(system)), exit) ==> exit == old(system)@.runtime.exit(old(entry).main),
{
}

/// Native operations are counted in and out, and one that did not finish is an error.
pub proof fn law_native_operations_are_counted<H>(
    system: &mut AffSystem<H>,
    counted: bool,
    result: AffResult<H>,
    joined: AffResult<H>,
    outcome: AffNoticeOutcome<H>,
    workers: usize,
    entry: AffEntry<H>,
)
    ensures
        call_ensures(purust_aff_spawn_native::<H>, (system,), counted) ==> {
            &&& counted == (old(system)@.runtime.next_id + old(system)@.runtime.natives
                < usize::MAX)
            &&& !counted ==> final(system)@ == old(system)@
            &&& counted ==> final(system)@ == (SystemView {
                runtime: RuntimeView {
                    active: old(system)@.runtime.active + 1,
                    natives: old(system)@.runtime.natives + 1,
                    ..old(system)@.runtime
                },
                ..old(system)@
            })
        },
        call_ensures(
            aff_native_joined::<H>,
            (system, AffNativeOutcome::Finished(result)),
            joined,
        ) ==> joined == result && final(system)@ == old(system)@,
        call_ensures(
            aff_native_joined::<H>,
            (system, AffNativeOutcome::<H>::Aborted),
            joined,
        ) ==> joined == AffResult::<H>::Err(AffValue::Fault(AffFault::NativeTerminated)) && final(system)@ == old(system)@,
        call_ensures(
            aff_native_joined::<H>,
            (system, AffNativeOutcome::<H>::Panicked),
            joined,
        ) ==> joined == AffResult::<H>::Err(AffValue::Fault(AffFault::NativeTerminated)) && final(system)@ == (SystemView {
            runtime: RuntimeView { panicked: true, ..old(system)@.runtime },
            ..old(system)@
        }),
        call_ensures(aff_native_completed::<H>, (system,), ()) ==> final(system)@ == (SystemView {
            runtime: old(system)@.runtime.without_native(),
            ..old(system)@
        }),
        call_ensures(aff_run_main_with_workers::<H>, (workers,), entry) ==> {
            &&& workers == 0 ==> entry.workers == 1
            &&& workers > 0 ==> entry.workers == workers
            &&& entry.main is Ok
        },
{
}

/// Groups, runs, queues and timers are kept as they should be.
pub proof fn law_parts_keep_their_word<H>(
    group: &mut AffKillMany<H>,
    victim: Option<usize>,
    last: bool,
    removers: Vec<(usize, usize)>,
    id: usize,
    join: usize,
    run: &mut AffRun<H>,
    leaves: Vec<usize>,
    fibers: VecDeque<usize>,
    agenda: &mut Vec<AffTask<H>>,
    caught: AffCaught,
    callback: AffCallback<H>,
    result: AffResult<H>,
    notice: AffNotice<H>,
)
    ensures
        call_ensures(AffKillMany::<H>::next_victim, (group,), victim) ==> {
            &&& old(group)@.victims.len() == 0 ==> victim is None && final(group)@ == old(group)@
            &&& old(group)@.victims.len() > 0 ==> victim == Some(old(group)@.victims[0])
                && final(group)@ == old(group)@.advanced()
        },
        call_ensures(AffKillMany::<H>::hold, (group, id, join), ()) ==> final(group)@ == old(group)@.holding(id, join),
        call_ensures(AffKillMany::<H>::dismiss, (group,), removers) ==> removers@ == old(group)@.removers && final(group)@ == old(group)@.dismissed(),
        call_ensures(AffKillMany::<H>::acknowledge, (group,), last) ==> final(group)@ == old(group)@.after(1) && last == (final(group)@.remaining == 0),
        call_ensures(AffRun::<H>::place, (run, id, join), ()) ==> {
            &&& final(run)@.fibers == old(run)@.fibers.insert(id, join)
            &&& final(run)@.par == old(run)@.par
            &&& final(run)@.target == old(run)@.target
        },
        call_ensures(AffRun::<H>::fibers_of, (&*old(run), &leaves), fibers) ==> fibers@ == old(run)@.fibers_of(leaves@),
        call_ensures(aff_unwind::<H>, (agenda,), caught) ==> (final(agenda)@, caught) == unwound(
            old(agenda)@,
        ),
        call_ensures(AffCallback::<H>::to_notice, (callback, &result), notice) ==> notice
            == callback.notice(result),
{
}

/// Queues and timers are kept as they should be.
pub proof fn law_queues_keep_their_word<J, C>(
    queue: &mut AffPoolQueue<J>,
    job: J,
    work: AffWork<J>,
    timers: &mut AffTimers<C>,
    key: AffTimerKey,
    callback: C,
    now: u128,
    action: AffTimerAction<C>,
)
    ensures
        call_ensures(AffPoolQueue::<J>::submit, (queue, job), ()) ==> final(queue)@.jobs == old(queue)@.jobs.push(job) && final(queue)@.stop == old(queue)@.stop,
        call_ensures(AffPoolQueue::<J>::work, (queue,), work) ==> (final(queue)@, work) == old(queue)@.working(),
        call_ensures(AffPoolQueue::<J>::shut_down, (queue,), ()) ==> final(queue)@.jobs.len() == 0
            && final(queue)@.stop,
        call_ensures(AffTimers::<C>::register, (timers, key, callback), ()) ==> final(timers)@
            == old(timers)@.insert(key, callback),
        call_ensures(AffTimers::<C>::cancel, (timers, key), ()) ==> final(timers)@ == old(timers)@.remove(key),
        call_ensures(AffTimers::<C>::poll, (timers, now), action) ==> crate::timer::is_poll(
            old(timers)@,
            now,
            action,
            final(timers)@,
        ),
{
}

/// The number of workers is read from the setting.
pub proof fn law_setting_is_read<H>(
    text: &str,
    size: Option<usize>,
    setting: Option<String>,
    parallelism: Option<usize>,
    workers: usize,
    entry: AffEntry<H>,
)
    ensures
        call_ensures(parse_size, (text,), size) ==> size == parsed_size(text@),
        call_ensures(aff_default_workers, (setting, parallelism), workers) ==> workers
            == default_workers(
            match setting {
                Some(text) => Some(text@),
                None => None,
            },
            parallelism,
        ),
        call_ensures(purust_aff_run_main::<H>, (setting, parallelism), entry) ==> entry.workers
            == default_workers(
            match setting {
                Some(text) => Some(text@),
                None => None,
            },
            parallelism,
        ) && entry.main is Ok,
{
}

/// What is thrown stops at the telling of observers, ends a fiber that waits for a
/// reply or has panicked, and passes everything else.
pub proof fn law_what_is_thrown_stops<H>(
    agenda: Seq<AffTask<H>>,
    id: usize,
    reply: AffReply<H>,
    notice: AffNotice<H>,
)
    ensures
        unwound(Seq::<AffTask<H>>::empty()) == (Seq::<AffTask<H>>::empty(), AffCaught::Nobody),
        unwound(agenda.push(AffTask::Notify(id))) == (
            agenda.push(AffTask::Notify(id)),
            AffCaught::Notice,
        ),
        unwound(agenda.push(AffTask::Panicked(id))) == (
            agenda.push(AffTask::Panicked(id)),
            AffCaught::Fiber,
        ),
        unwound(agenda.push(AffTask::Reply(id, reply))) == (
            agenda.push(AffTask::Panicked(id)),
            AffCaught::Fiber,
        ),
        unwound(agenda.push(AffTask::Drive(id))) == unwound(agenda),
        unwound(agenda.push(AffTask::KillNext(id))) == unwound(agenda),
        unwound(agenda.push(AffTask::Tell(notice))) == unwound(agenda),
{
    assert(agenda.push(AffTask::Notify(id)).drop_last() =~= agenda);
    assert(agenda.push(AffTask::Panicked(id)).drop_last() =~= agenda);
    assert(agenda.push(AffTask::Reply(id, reply)).drop_last() =~= agenda);
    assert(agenda.push(AffTask::Drive(id)).drop_last() =~= agenda);
    assert(agenda.push(AffTask::KillNext(id)).drop_last() =~= agenda);
    assert(agenda.push(AffTask::Tell(notice)).drop_last() =~= agenda);
}

/// An error that an observer throws is kept; without an identifier for it, it counts
/// as a panic.
pub proof fn law_thrown_notices_are_taken_in<H>(
    system: &mut AffSystem<H>,
    outcome: AffNoticeOutcome<H>,
)
    ensures
        call_ensures(aff_notice_thrown::<H>, (system, outcome), ()) ==> {
            let room = old(system)@.runtime.next_id + old(system)@.runtime.natives < usize::MAX;
            &&& room ==> final(system)@ == (SystemView {
                runtime: old(system)@.runtime.noticed(outcome),
                ..old(system)@
            })
            &&& !room ==> final(system)@ == (SystemView {
                runtime: RuntimeView { panicked: true, ..old(system)@.runtime },
                ..old(system)@
            })
        },
{
}

/// Parallel computations are run, and fibers are supervised and killed together, as
/// they should be.
pub proof fn law_branches_and_groups_keep_their_word<H>(
    system: &mut AffSystem<H>,
    agenda: &mut Vec<AffTask<H>>,
    util: AffUtil<H>,
    supervisor: Option<usize>,
    root: &AffNodeRef<H>,
    target: AffTarget<H>,
    token: Option<usize>,
    id: usize,
    victims: VecDeque<usize>,
    error: AffValue<H>,
    call: Option<AffHostCall<H>>,
)
    ensures
        call_ensures(
            aff_run_parallel::<H>,
            (system, util, supervisor, *root, target),
            token,
        ) ==> {
            let leaves = planned_leaves(*root);
            let base = old(system)@.next_token;
            let born = old(system)@.bearing_leaves(util, supervisor, base, leaves);
            let room = base < usize::MAX && old(system)@.runtime.next_id
                + old(system)@.runtime.natives + leaves.len() <= usize::MAX;
            &&& !room ==> token is None && final(system)@ == old(system)@
            &&& room ==> token == Some(base) && final(system)@ == (SystemView {
                runs: born.runs.insert(
                    base,
                    RunView {
                        par: planned_run(*root),
                        fibers: leaf_fibers(old(system)@.runtime.next_id, leaves),
                        target,
                    },
                ),
                next_token: (born.next_token + 1) as usize,
                ..born
            })
        },
        call_ensures(AffSystem::<H>::supervise, (system, supervisor, id), ()) ==> final(system)@
            == old(system)@.supervised(supervisor, id),
        call_ensures(AffSystem::<H>::unsupervise, (system, supervisor, id), ()) ==> final(system)@
            == old(system)@.unsupervised(supervisor, id),
        call_ensures(aff_kill_many::<H>, (system, victims, error, target, agenda), call) ==> {
            let moved = old(system)@.killing(victims@, error, target);
            &&& final(system)@ == moved.system
            &&& final(agenda)@ == old(agenda)@ + moved.tasks
            &&& call == moved.call
        },
{
}

/// What is put together of parts holds the parts, and copies are the same.
pub proof fn law_parts_are_held<H>(
    is_left: AffValue<H>,
    from_left: AffValue<H>,
    from_right: AffValue<H>,
    left: AffValue<H>,
    right: AffValue<H>,
    util: AffUtil<H>,
    victims: VecDeque<usize>,
    target: AffTarget<H>,
    group: AffKillMany<H>,
    par: AffParRun<H>,
    run: AffRun<H>,
    copy: AffValue<H>,
    same: AffTarget<H>,
)
    ensures
        call_ensures(
            AffUtil::<H>::new,
            (is_left, from_left, from_right, left, right),
            util,
        ) ==> {
            &&& util.is_left == is_left
            &&& util.from_left == from_left
            &&& util.from_right == from_right
            &&& util.left == left
            &&& util.right == right
        },
        call_ensures(AffKillMany::<H>::new, (victims, left, target), group) ==> {
            &&& group@.remaining == victims@.len()
            &&& group@.victims == victims@
            &&& group@.error == left
            &&& group@.target == target
            &&& group@.removers.len() == 0
        },
        call_ensures(AffRun::<H>::new, (par, target), run) ==> {
            &&& run@.par == par@
            &&& run@.fibers == Map::<usize, usize>::empty()
            &&& run@.target == target
        },
        call_ensures(AffValue::<H>::clone, (&left,), copy) ==> copy == left,
        call_ensures(AffTarget::<H>::clone, (&target,), same) ==> same == target,
{
}

/// Tables, sets and lists give out what was put in, in order where order is promised.
pub proof fn law_collections_keep_their_word<T: View>(
    table: &mut AffTable<T>,
    key: usize,
    entry: T,
    taken: Option<T>,
    flag: bool,
    map: &mut BTreeMap<usize, T>,
    first: Option<(usize, T)>,
    supervisor: &mut AffSupervisor,
    members: Vec<usize>,
)
    ensures
        call_ensures(AffTable::<T>::contains, (&*old(table), key), flag) ==> flag == old(table)@.contains_key(key),
        call_ensures(AffTable::<T>::put, (table, key, entry), ()) ==> final(table)@ == old(table)@.insert(key, entry@),
        call_ensures(AffTable::<T>::take, (table, key), taken) ==> {
            &&& final(table)@ == old(table)@.remove(key)
            &&& taken is Some <==> old(table)@.contains_key(key)
            &&& taken is Some ==> taken->0@ == old(table)@[key]
        },
        call_ensures(pop_first::<T>, (map,), first) ==> match first {
            Some((least, value)) => {
                &&& old(map)@.contains_key(least)
                &&& forall|other: usize| #[trigger] old(map)@.contains_key(other) ==> least <= other
                &&& value == old(map)@[least]
                &&& final(map)@ == old(map)@.remove(least)
            },
            None => final(map)@ == old(map)@ && forall|other: usize|
                !#[trigger] old(map)@.contains_key(other),
        },
        call_ensures(AffSupervisor::register, (supervisor, key), ()) ==> final(supervisor)@ == old(supervisor)@.insert(key),
        call_ensures(AffSupervisor::release, (supervisor, key), ()) ==> final(supervisor)@ == old(supervisor)@.remove(key),
        call_ensures(AffSupervisor::members, (&*old(supervisor),), members) ==> members@
            == in_order(old(supervisor)@),
{
}

/// Threads that arrive at a meeting are counted once each, and gated callbacks come
/// out as they went in.
pub proof fn law_meetings_keep_their_word<C>(
    meeting: &mut Rendezvous,
    thread: u64,
    state: AffMeeting,
    count: usize,
    gate: &mut CallbackGate<C>,
    callback: C,
    callbacks: Vec<C>,
)
    ensures
        call_ensures(Test_Concurrency_arrive, (meeting, thread), state) ==> {
            &&& final(meeting)@ == old(meeting)@.insert(thread)
            &&& state is Met <==> final(meeting)@.len() == 2
            &&& state is Alone <==> final(meeting)@.len() < 2
        },
        call_ensures(Test_Concurrency_threadCount, (&*old(meeting),), count) ==> count == old(meeting)@.len(),
        call_ensures(Test_Concurrency_enqueueGated::<C>, (gate, callback), ()) ==> final(gate).callbacks@ == old(gate).callbacks@.push(callback),
        call_ensures(Test_Concurrency_releaseCallbacks::<C>, (gate,), callbacks) ==> callbacks@
            == old(gate).callbacks@ && final(gate).callbacks@.len() == 0,
{
}

/// Every fault says what it is.
pub proof fn law_faults_say_what_they_are(message: &'static str)
    ensures
        call_ensures(AffFault::message, (&AffFault::Panicked,), message) ==> message@
            == "[Aff] A Rust panic terminated this fiber"@,
        call_ensures(AffFault::message, (&AffFault::EarlyExit,), message) ==> message@
            == "[ParAff] Early exit"@,
        call_ensures(AffFault::message, (&AffFault::NativeTerminated,), message) ==> message@
            == "A native IO task terminated unexpectedly"@,
        call_ensures(AffFault::message, (&AffFault::Misuse,), message) ==> message@
            == "ParAff must be consumed through sequential"@,
        call_ensures(AffFault::message, (&AffFault::NoRuntime,), message) ==> message@
            == "Aff requires purust_aff_run_main"@,
{
}

} // verus!
