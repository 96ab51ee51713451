//! What becomes of a fiber and of those who watch it: how it is made, started,
//! observed, killed and ended, and when its error is an error of the program.
use crate::driver::{DriveView, TurnView};
use crate::fiber::{turn_of, AffFiber, AffJoin, AffTurn, FiberView};
use crate::machine::{AffEvent, AffRequest, AffStep, MachineView};
use crate::ordered::{lemma_listing_exists, listing};
use crate::runtime::{AffRuntime, RuntimeView};
use crate::target::{AffCallback, AffNotice, AffTarget};
use crate::util::AffUtil;
use crate::value::{AffNodeRef, AffResult, AffValue};
use vstd::prelude::*;

verus! {

/// An observer that is to deliver gets the result of the fiber; one that waits for
/// a kill only learns that the fiber has ended.
pub proof fn law_observers_get_what_they_ask_for<H>(target: AffTarget<H>, result: AffResult<H>)
    ensures
        AffCallback::Deliver(target).notice(result).target == target,
        AffCallback::Deliver(target).notice(result).result == result,
        AffCallback::Acknowledge(target).notice(result).target == target,
        AffCallback::Acknowledge(target).notice(result).result == AffResult::<H>::Ok(
            AffValue::Unit,
        ),
{
}

/// A new fiber waits with its body to be begun, and nobody watches it.
pub proof fn law_new_fiber_waits<H>(
    id: usize,
    util: AffUtil<H>,
    supervisor: Option<usize>,
    owned: bool,
    node: AffNodeRef<H>,
)
    ensures
        ({
            let fiber = FiberView::fresh(id, util, supervisor, owned, node);
            &&& fiber.id == id && fiber.util == util && fiber.supervisor == supervisor
            &&& fiber.owned == owned
            &&& fiber.machine is Some && fiber.machine->0.step == AffStep::<H>::Node(node)
            &&& fiber.machine->0.frames.len() == 0
            &&& fiber.driver is None && !fiber.running && !fiber.started
            &&& fiber.result is None && fiber.events.len() == 0
            &&& fiber.joins == Map::<usize, AffJoin<H>>::empty()
            &&& fiber.rethrow && fiber.notices.len() == 0
            &&& fiber.next_join == 0 && !fiber.anew
            &&& fiber.is_suspended()
            &&& !fiber.is_drivable()
        }),
{
}

/// A fiber is suspended from the moment it is made until somebody starts it, and it
/// can be taken on by a thread from then on, until it ends, whenever no thread has
/// it.
pub proof fn law_states_of_a_fiber<H>(fiber: FiberView<H>)
    ensures
        fiber.is_suspended() <==> !fiber.started && fiber.result is None,
        fiber.is_drivable() <==> fiber.started && !fiber.running && fiber.result is None,
        fiber.begun() == (FiberView { started: true, ..fiber }),
{
}

/// An event waits behind those that came before. A kill also starts the fiber.
pub proof fn law_events_queue_up<H>(fiber: FiberView<H>, event: AffEvent<H>)
    ensures
        ({
            let next = fiber.with_event(event);
            &&& next == (FiberView { events: next.events, started: next.started, ..fiber })
            &&& next.events.len() == fiber.events.len() + 1
            &&& next.events[fiber.events.len() as int] == event
            &&& forall|i: int| 0 <= i < fiber.events.len() ==> next.events[i] == fiber.events[i]
            &&& event is Kill ==> next.started
            &&& event is Resolve ==> next.started == fiber.started
        }),
{
}

/// An observer of a fiber that has not ended is added under a number of its own,
/// with what it wants, and the others stay.
pub proof fn law_observer_is_added<H>(
    fiber: FiberView<H>,
    rethrow: bool,
    callback: AffCallback<H>,
)
    requires
        fiber.result is None,
    ensures
        ({
            let next = fiber.observed(rethrow, callback);
            &&& next == (FiberView {
                joins: next.joins,
                next_join: next.next_join,
                anew: next.anew,
                ..fiber
            })
            &&& forall|join: usize| #[trigger]
                next.joins.contains_key(join) <==> join == fiber.next_join
                    || fiber.joins.contains_key(join)
            &&& next.joins[fiber.next_join].rethrow == rethrow
            &&& next.joins[fiber.next_join].callback == callback
            &&& forall|join: usize|
                join != fiber.next_join && fiber.joins.contains_key(join)
                    ==> #[trigger] next.joins[join] == fiber.joins[join]
            &&& fiber.next_join < usize::MAX ==> next.next_join == fiber.next_join + 1
            &&& fiber.next_join == usize::MAX ==> next.next_join == 0
            &&& fiber.immediate(callback) is None
        }),
{
}

/// An observer of a fiber that has ended is told the result at once and is not
/// kept. One that takes care of errors takes care of this one.
pub proof fn law_late_observer_is_told_at_once<H>(
    fiber: FiberView<H>,
    runtime: RuntimeView<H>,
    rethrow: bool,
    callback: AffCallback<H>,
)
    requires
        fiber.result is Some,
    ensures
        ({
            let next = fiber.observed(rethrow, callback);
            &&& next == (FiberView {
                next_join: next.next_join,
                anew: next.anew,
                rethrow: next.rethrow,
                ..fiber
            })
            &&& next.rethrow <==> fiber.rethrow && rethrow
            &&& fiber.next_join < usize::MAX ==> next.next_join == fiber.next_join + 1
            &&& fiber.next_join == usize::MAX ==> next.next_join == 0
            &&& fiber.immediate(callback) == Some(callback.notice(fiber.result->0))
            &&& rethrow ==> fiber.forgiven(rethrow, runtime) == runtime
            &&& !rethrow ==> fiber.forgiven(rethrow, runtime) == (RuntimeView {
                errors: runtime.errors.remove(fiber.id),
                ..runtime
            })
        }),
{
}

/// Nothing is forgiven before a fiber has ended.
pub proof fn law_nothing_is_forgiven_in_advance<H>(
    fiber: FiberView<H>,
    runtime: RuntimeView<H>,
    rethrow: bool,
)
    requires
        fiber.result is None,
    ensures
        fiber.forgiven(rethrow, runtime) == runtime,
{
}

/// Removing an observer removes this one and no other.
pub proof fn law_removal_takes_one_observer<H>(fiber: FiberView<H>, gone: usize)
    ensures
        ({
            let next = fiber.detached(gone);
            &&& next == (FiberView { joins: next.joins, ..fiber })
            &&& forall|join: usize| #[trigger]
                next.joins.contains_key(join) <==> join != gone && fiber.joins.contains_key(join)
            &&& forall|join: usize|
                join != gone && fiber.joins.contains_key(join) ==> #[trigger] next.joins[join]
                    == fiber.joins[join]
        }),
{
}

/// The first start of a fiber registers it, and adds one to what the entry point
/// waits for; any other registers nothing.
pub proof fn law_start_registers_once<H>(fiber: FiberView<H>, runtime: RuntimeView<H>)
    ensures
        !fiber.started && fiber.result is None ==> fiber.registered(runtime) == (RuntimeView {
            fibers: runtime.fibers.insert(fiber.id),
            active: runtime.active + 1,
            ..runtime
        }),
        fiber.started || fiber.result is Some ==> fiber.registered(runtime) == runtime,
{
}

/// A kill of a fiber that has not ended leaves an observer that takes care of its
/// error and learns of its end, and the kill behind the events that came before.
pub proof fn law_kill_leaves_an_observer<H>(
    fiber: FiberView<H>,
    error: AffValue<H>,
    target: AffTarget<H>,
)
    requires
        fiber.result is None,
    ensures
        ({
            let next = fiber.killed(error, target);
            &&& next == (FiberView {
                joins: next.joins,
                next_join: next.next_join,
                anew: next.anew,
                events: next.events,
                started: true,
                ..fiber
            })
            &&& next.joins == fiber.joins.insert(
                fiber.next_join,
                AffJoin { rethrow: false, callback: AffCallback::Acknowledge(target) },
            )
            &&& next.events == fiber.events.push(AffEvent::Kill(error))
            &&& fiber.next_join < usize::MAX ==> next.next_join == fiber.next_join + 1
            &&& fiber.next_join == usize::MAX ==> next.next_join == 0
        }),
{
}

/// The error that a fiber ends with is an error of the program if every observer
/// leaves it to the program, whatever it is told by, and only then. A value never
/// is.
pub proof fn law_error_is_reported_unless_an_observer_takes_it<H>(
    fiber: FiberView<H>,
    runtime: RuntimeView<H>,
    error: AffValue<H>,
    value: AffValue<H>,
)
    ensures
        (exists|join: usize| #[trigger]
            fiber.joins.contains_key(join) && !fiber.joins[join].rethrow) ==> fiber.reported(
            Err(error),
            runtime,
        ) == runtime,
        !fiber.rethrow ==> fiber.reported(Err(error), runtime) == runtime,
        fiber.rethrow && (forall|join: usize| #[trigger]
            fiber.joins.contains_key(join) ==> fiber.joins[join].rethrow) ==> fiber.reported(
            Err(error),
            runtime,
        ) == (RuntimeView { errors: runtime.errors.insert(fiber.id, error), ..runtime }),
        fiber.reported(Ok(value), runtime) == runtime,
{
}

/// A fiber that is killed before it ends adds no error to those of the program,
/// whatever it ends with and whoever else watches it, as long as the observer that
/// the kill has left is not removed.
pub proof fn law_killed_fiber_adds_no_error<H>(
    fiber: FiberView<H>,
    error: AffValue<H>,
    target: AffTarget<H>,
    event: AffEvent<H>,
    turn: TurnView<H>,
    rethrow: bool,
    callback: AffCallback<H>,
    result: AffResult<H>,
    runtime: RuntimeView<H>,
)
    requires
        fiber.result is None,
        fiber.next_join < usize::MAX,
    ensures
        ({
            let killed = fiber.killed(error, target);
            &&& killed.reported(result, runtime) == runtime
            &&& killed.with_event(event).reported(result, runtime) == runtime
            &&& killed.turned(turn).reported(result, runtime) == runtime
            &&& killed.observed(rethrow, callback).reported(result, runtime) == runtime
        }),
{
    let killed = fiber.killed(error, target);
    assert(killed.joins.contains_key(fiber.next_join) && !killed.joins[fiber.next_join].rethrow);
    assert(killed.with_event(event).joins.contains_key(fiber.next_join));
    assert(killed.turned(turn).joins.contains_key(fiber.next_join));
    assert(killed.observed(rethrow, callback).joins.contains_key(fiber.next_join));
}

/// A fiber that ends keeps its result and nothing of its work, and has its
/// observers to tell: each of them once, in the order of their numbers, and nobody
/// else.
pub proof fn law_end_of_a_fiber<H>(fiber: FiberView<H>, result: AffResult<H>)
    requires
        fiber.joins.dom().finite(),
    ensures
        ({
            let ended = fiber.completed(result);
            &&& ended == (FiberView {
                machine: None,
                driver: None,
                running: false,
                events: Seq::empty(),
                result: Some(result),
                joins: Map::empty(),
                rethrow: ended.rethrow,
                notices: ended.notices,
                ..fiber
            })
            &&& ended.rethrow <==> fiber.rethrow && forall|join: usize| #[trigger]
                fiber.joins.contains_key(join) ==> fiber.joins[join].rethrow
            &&& exists|numbers: Seq<usize>| #[trigger]
                tells_in_order(fiber.joins, numbers, ended.notices, result)
        }),
{
    lemma_listing_exists(fiber.joins);
    let entries = listing(fiber.joins);
    let ended = fiber.completed(result);
    let numbers = entries.map_values(|entry: (usize, AffJoin<H>)| entry.0);
    assert forall|join: usize| #[trigger] fiber.joins.contains_key(join) implies numbers.contains(
        join,
    ) by {
        let i = choose|i: int| 0 <= i < entries.len() && (#[trigger] entries[i]).0 == join;
        assert(numbers[i] == join);
    }
    assert forall|i: int| 0 <= i < numbers.len() implies fiber.joins.contains_key(
        #[trigger] numbers[i],
    ) && ended.notices[i] == fiber.joins[numbers[i]].callback.notice(result) by {
        assert(numbers[i] == entries[i].0);
    }
    assert(tells_in_order(fiber.joins, numbers, ended.notices, result));
}

/// Whether `notices` are those for the observers with these numbers, which are all
/// there are, from the smallest to the largest.
pub open spec fn tells_in_order<H>(
    joins: Map<usize, AffJoin<H>>,
    numbers: Seq<usize>,
    notices: Seq<AffNotice<H>>,
    result: AffResult<H>,
) -> bool {
    &&& numbers.len() == notices.len()
    &&& forall|i: int, j: int| 0 <= i < j < numbers.len() ==> numbers[i] < numbers[j]
    &&& forall|join: usize| #[trigger] joins.contains_key(join) ==> numbers.contains(join)
    &&& forall|i: int|
        0 <= i < numbers.len() ==> joins.contains_key(#[trigger] numbers[i]) && notices[i]
            == joins[numbers[i]].callback.notice(result)
}

/// Telling an observer takes the first one off and leaves the others.
pub proof fn law_told_observer_is_taken_off<H>(fiber: FiberView<H>)
    requires
        fiber.notices.len() > 0,
    ensures
        fiber.told() == (FiberView { notices: fiber.told().notices, ..fiber }),
        fiber.told().notices.len() == fiber.notices.len() - 1,
        forall|i: int|
            0 <= i < fiber.notices.len() - 1 ==> #[trigger] fiber.told().notices[i]
                == fiber.notices[i + 1],
{
}

/// A fiber that is taken on goes on where its machine stands, with all events that
/// have come to it.
pub proof fn law_fiber_goes_on_where_it_stands<H>(fiber: FiberView<H>)
    requires
        fiber.machine is Some,
    ensures
        fiber.drive().machine == fiber.machine->0,
        fiber.drive().backlog.len() == 0,
        fiber.drive().fresh,
        fiber.drive().events == fiber.events,
{
}

/// What a run leaves of a fiber: while the fiber waits for a reply its thread keeps
/// it, with the machine and all events; a wait leaves the machine behind for
/// whoever takes the fiber on next.
pub proof fn law_run_leaves_the_fiber<H>(
    fiber: FiberView<H>,
    drive: DriveView<H>,
    request: AffRequest<H>,
    machine: MachineView<H>,
    events: Seq<AffEvent<H>>,
    result: AffResult<H>,
)
    ensures
        ({
            let asked = fiber.turned(TurnView::Ask { drive, request });
            &&& asked == (FiberView {
                running: true,
                machine: None,
                driver: asked.driver,
                events: drive.events,
                ..fiber
            })
            &&& asked.driver is Some
            &&& asked.driver->0.machine == drive.machine
            &&& asked.driver->0.backlog == drive.backlog
            &&& asked.driver->0.fresh == drive.fresh
            &&& asked.driver->0.wait == crate::driver::wait_of(request)
        }),
        fiber.turned(TurnView::Suspended(machine)) == (FiberView {
            running: false,
            driver: None,
            machine: Some(machine),
            events: Seq::empty(),
            ..fiber
        }),
        fiber.turned(TurnView::Yielded(machine, events)) == (FiberView {
            running: false,
            driver: None,
            machine: Some(machine),
            events,
            ..fiber
        }),
        fiber.turned(TurnView::Finished(result, events)) == (FiberView {
            running: false,
            driver: None,
            machine: None,
            events,
            ..fiber
        }),
        turn_of(TurnView::Ask { drive, request }) == AffTurn::Ask(request),
        turn_of(TurnView::<H>::Suspended(machine)) is Suspended,
        turn_of(TurnView::Yielded(machine, events)) == AffTurn::<H>::Yielded(events.len() > 0),
        turn_of(TurnView::Finished(result, events)) == AffTurn::Finished(result),
{
}

/// A reply is taken by a fiber that waits for one of this kind, and the fiber goes
/// on where it had asked, with the events that have come since.
pub proof fn law_reply_goes_to_who_asked<H>(fiber: FiberView<H>, reply: crate::driver::AffReply<H>)
    ensures
        fiber.awaits(reply) <==> fiber.driver is Some && crate::driver::reply_fits(
            fiber.driver->0.wait,
            reply,
        ),
        fiber.driver is Some ==> fiber.resumed(reply) == (DriveView {
            machine: fiber.driver->0.machine,
            backlog: fiber.driver->0.backlog,
            fresh: fiber.driver->0.fresh,
            events: fiber.events,
        }).resumed(fiber.driver->0.wait, reply),
{
}

/// A fiber is seen as it is.
pub proof fn law_fiber_is_seen_as_it_is<H>(fiber: &AffFiber<H>)
    ensures
        fiber@.id == fiber.id,
        fiber@.util == fiber.util,
        fiber@.supervisor == fiber.supervisor,
        fiber@.owned == fiber.owned,
        fiber@.machine is Some <==> fiber.machine is Some,
        fiber.machine matches Some(machine) ==> {
            &&& fiber@.machine->0.step == machine.step
            &&& fiber@.machine->0.frames == machine.frames@
            &&& fiber@.machine->0.mask == machine.mask
            &&& fiber@.machine->0.interrupt == machine.interrupt
            &&& fiber@.machine->0.tick == machine.tick
        },
        fiber@.driver is Some <==> fiber.driver is Some,
        fiber.driver matches Some(driver) ==> {
            &&& fiber@.driver->0.machine == driver.machine@
            &&& fiber@.driver->0.backlog == driver.backlog@
            &&& fiber@.driver->0.fresh == driver.fresh
            &&& fiber@.driver->0.wait == driver.wait
        },
        fiber@.running == fiber.running,
        fiber@.started == fiber.started,
        fiber@.events == fiber.events@,
        fiber@.result == fiber.result,
        fiber@.joins == fiber.joins@,
        fiber@.next_join == fiber.next_join,
        fiber@.rethrow == fiber.rethrow,
        fiber@.notices == fiber.notices@,
{
}

/// What all fibers share is seen as it is, and each change of it changes one thing.
pub proof fn law_runtime_changes_one_thing_at_a_time<H>(
    seen: &AffRuntime<H>,
    runtime: RuntimeView<H>,
    id: usize,
    error: AffValue<H>,
)
    ensures
        seen@.next_id == seen.next_id,
        seen@.active == seen.active,
        seen@.fibers == seen.fibers@,
        seen@.errors == seen.errors@,
        seen@.panicked == seen.panicked,
        seen@.natives == seen.natives,
        runtime.next_id < usize::MAX ==> runtime.with_next_id() == (RuntimeView {
            next_id: (runtime.next_id + 1) as usize,
            ..runtime
        }),
        runtime.entered(id) == (RuntimeView {
            fibers: runtime.fibers.insert(id),
            active: runtime.active + 1,
            ..runtime
        }),
        runtime.active > 0 ==> runtime.retired(id) == (RuntimeView {
            fibers: runtime.fibers.remove(id),
            active: (runtime.active - 1) as nat,
            ..runtime
        }),
        runtime.with_native() == (RuntimeView {
            active: runtime.active + 1,
            natives: runtime.natives + 1,
            ..runtime
        }),
        runtime.active > 0 && runtime.natives > 0 ==> runtime.without_native() == (RuntimeView {
            active: (runtime.active - 1) as nat,
            natives: (runtime.natives - 1) as nat,
            ..runtime
        }),
        runtime.with_error(id, error) == (RuntimeView {
            errors: runtime.errors.insert(id, error),
            ..runtime
        }),
        runtime.without_error(id) == (RuntimeView { errors: runtime.errors.remove(id), ..runtime }),
        runtime.with_panic() == (RuntimeView { panicked: true, ..runtime }),
        runtime.has_room() <==> runtime.next_id + runtime.natives < usize::MAX,
{
}

/// What an observer throws is kept as an error of the program under an identifier
/// that nobody has; a panic of it is recorded; nothing else changes.
pub proof fn law_what_observers_throw_is_kept<H>(runtime: RuntimeView<H>, error: AffValue<H>)
    requires
        runtime.next_id < usize::MAX,
    ensures
        runtime.noticed(crate::runtime::AffNoticeOutcome::Done) == runtime,
        runtime.noticed(crate::runtime::AffNoticeOutcome::Failed(error)) == (RuntimeView {
            next_id: (runtime.next_id + 1) as usize,
            errors: runtime.errors.insert(runtime.next_id, error),
            ..runtime
        }),
        runtime.noticed(crate::runtime::AffNoticeOutcome::<H>::Panicked) == (RuntimeView {
            panicked: true,
            ..runtime
        }),
{
}

} // verus!
