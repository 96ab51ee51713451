//! What cancellation does to a fiber, and what it leaves alone.
use crate::driver::{machine_weight, wait_of, AffReply, AffWait, DriveView, TurnView};
use crate::fiber::FiberView;
use crate::machine::{beginning, AffCancel, AffEvent, AffRequest, AffStep, MachineView};
use crate::resources::{can_live, gives_way, going_on, input_fits, life, next_turn, LifeInput};
use crate::runtime::RuntimeView;
use crate::target::AffTarget;
use crate::value::{AffNodeRef, AffResult, AffValue};
use vstd::prelude::*;

verus! {

/// Whether a kill is among these events.
pub open spec fn has_kill<H>(events: Seq<AffEvent<H>>) -> bool
    decreases events.len(),
{
    events.len() > 0 && (events[0] is Kill || has_kill(events.skip(1)))
}

/// The error of the first kill among these events.
pub open spec fn first_kill<H>(events: Seq<AffEvent<H>>) -> AffValue<H>
    decreases events.len(),
{
    if events.len() == 0 {
        AffValue::Unit
    } else {
        match events[0] {
            AffEvent::Kill(error) => error,
            _ => first_kill(events.skip(1)),
        }
    }
}

/// A machine that has nothing on its stack and has been killed ends with the
/// error it was killed with, whatever else comes in.
proof fn lemma_killed_ends<H>(drive: DriveView<H>)
    requires
        !drive.fresh,
        drive.events.len() == 0,
        drive.machine.frames.len() == 0,
        drive.machine.mask == 0,
        drive.machine.interrupt is Some,
        drive.machine.step is Result,
    ensures
        drive.run() == TurnView::<H>::Finished(Err(drive.machine.interrupt->0), Seq::empty()),
    decreases drive.backlog.len(),
{
    if drive.backlog.len() > 0 {
        let (machine, request) = drive.machine.deliver(drive.backlog[0]);
        lemma_killed_ends(DriveView { machine, backlog: drive.backlog.skip(1), ..drive });
    } else {
        assert(drive.events =~= Seq::empty());
    }
}

proof fn lemma_killed_before_first_step<H>(drive: DriveView<H>)
    requires
        !drive.fresh,
        drive.events.len() == 0,
        drive.machine.frames.len() == 0,
        drive.machine.mask == 0,
        drive.machine.interrupt is None,
        drive.machine.step is Node,
        has_kill(drive.backlog),
    ensures
        drive.run() == TurnView::<H>::Finished(Err(first_kill(drive.backlog)), Seq::empty()),
    decreases drive.backlog.len(),
{
    let (machine, request) = drive.machine.deliver(drive.backlog[0]);
    let next = DriveView { machine, backlog: drive.backlog.skip(1), ..drive };
    if drive.backlog[0] is Kill {
        lemma_killed_ends(next);
    } else {
        lemma_killed_before_first_step(next);
    }
}

/// A fiber that is killed before its first instruction never runs its body: it
/// asks for nothing and ends with the error of the first kill.
pub proof fn law_killed_before_start_never_runs<H>(node: AffNodeRef<H>, events: Seq<AffEvent<H>>)
    requires
        has_kill(events),
    ensures
        (DriveView {
            machine: MachineView::start(node),
            backlog: Seq::empty(),
            fresh: true,
            events,
        }).run() == TurnView::<H>::Finished(Err(first_kill(events)), Seq::empty()),
{
    let drive = DriveView {
        machine: MachineView::start(node),
        backlog: Seq::empty(),
        fresh: false,
        events: Seq::empty(),
    };
    assert(Seq::<AffEvent<H>>::empty() + events =~= events);
    lemma_killed_before_first_step(DriveView { backlog: events, ..drive });
}

/// The first kill of a fiber is the one that counts.
pub proof fn law_first_kill_counts<H>(machine: MachineView<H>, error: AffValue<H>)
    ensures
        machine.deliver(AffEvent::Kill(error)).0.interrupt == match machine.interrupt {
            Some(first) => Some(first),
            None => Some(error),
        },
{
}

/// A kill does not disturb what a bracket protects: while the fiber acquires a
/// resource or lets go of one, the kill is only remembered.
pub proof fn law_masked_kill_is_only_remembered<H>(machine: MachineView<H>, error: AffValue<H>)
    requires
        machine.mask > 0,
    ensures
        machine.deliver(AffEvent::Kill(error)).1 is None,
        machine.deliver(AffEvent::Kill(error)).0 == (MachineView {
            interrupt: machine.deliver(AffEvent::Kill(error)).0.interrupt,
            ..machine
        }),
{
}

/// A kill that nothing protects from ends the wait of a fiber: the wait is
/// undone with the error of this kill, and no resolution of it counts any more.
pub proof fn law_kill_ends_a_wait<H>(machine: MachineView<H>, error: AffValue<H>, late: AffResult<H>)
    requires
        machine.wf(),
        machine.mask == 0,
        machine.step is Pending,
        !(machine.step->cancel is Nothing),
    ensures
        machine.deliver(AffEvent::Kill(error)).1 == Some(
            AffRequest::Cancel(machine.step->cancel, error),
        ),
        ({
            let killed = machine.deliver(AffEvent::Kill(error)).0;
            killed.deliver(AffEvent::Resolve(machine.tick, late)) == (killed, None::<AffRequest<H>>)
        }),
{
}

/// A wait is resolved at most once: after a resolution has counted, another one
/// for the same tick changes nothing.
pub proof fn law_resolution_counts_once<H>(
    machine: MachineView<H>,
    tick: usize,
    first: AffResult<H>,
    second: AffResult<H>,
)
    ensures
        ({
            let resolved = machine.deliver(AffEvent::Resolve(tick, first)).0;
            machine.step matches AffStep::Pending { tick: waiting, .. } && waiting == tick
                ==> resolved.deliver(AffEvent::Resolve(tick, second)) == (
                resolved,
                None::<AffRequest<H>>,
            )
        }),
{
}

/// A resolution for another tick than the current one changes nothing.
pub proof fn law_stale_resolution_is_ignored<H>(
    machine: MachineView<H>,
    tick: usize,
    result: AffResult<H>,
)
    requires
        machine.wf(),
        tick != machine.tick,
    ensures
        machine.deliver(AffEvent::Resolve(tick, result)) == (machine, None::<AffRequest<H>>),
{
}

/// Once a fiber has been killed and nothing protects it, no continuation that
/// was pushed before the kill runs any more: a pending function is skipped, and
/// so is a handler.
pub proof fn law_killed_fiber_skips_continuations<H>(
    machine: MachineView<H>,
    f: AffValue<H>,
    result: AffResult<H>,
)
    requires
        machine.mask == 0,
        machine.interrupt is Some,
    ensures
        machine.unwind(crate::machine::AffFrame::Bind(f, false), result) == (
            machine.with_step(AffStep::Result(result)),
            None::<AffRequest<H>>,
        ),
        machine.unwind(crate::machine::AffFrame::Mapping(f, false), result) == (
            machine.with_step(AffStep::Result(result)),
            None::<AffRequest<H>>,
        ),
        machine.unwind(crate::machine::AffFrame::Catch(f, false), result) == (
            machine.with_step(AffStep::Result(result)),
            None::<AffRequest<H>>,
        ),
{
}

/// A synchronous section that has begun is not interrupted from outside: while
/// a fiber waits for a reply, a kill is queued and nothing else changes, and no
/// other thread takes the fiber on.
pub proof fn law_running_fiber_is_not_interrupted<H>(
    fiber: FiberView<H>,
    error: AffValue<H>,
    target: AffTarget<H>,
)
    requires
        fiber.wf(),
        fiber.running,
    ensures
        fiber.killed(error, target).driver == fiber.driver,
        fiber.killed(error, target).machine == fiber.machine,
        fiber.killed(error, target).events == fiber.events.push(AffEvent::Kill(error)),
        !fiber.is_drivable(),
        !fiber.killed(error, target).is_drivable(),
{
}

/// Killing a fiber that has ended is a no-op: but for the number that the next
/// observer gets, the fiber stays as it was and so does the runtime. An error
/// that the fiber ended with is reported as it would have been.
pub proof fn law_killing_an_ended_fiber_is_harmless<H>(
    fiber: FiberView<H>,
    runtime: RuntimeView<H>,
    error: AffValue<H>,
    target: AffTarget<H>,
)
    requires
        fiber.wf(),
        fiber.result is Some,
    ensures
        fiber.killed(error, target) == (FiberView {
            next_join: fiber.killed(error, target).next_join,
            anew: fiber.killed(error, target).anew,
            ..fiber
        }),
        fiber.registered(runtime) == runtime,
        !fiber.killed(error, target).is_drivable(),
{
}

/// A wait that was registered with the order to give way always gives back its
/// thread, even when it is over as soon as it is registered.
pub proof fn law_delay_always_gives_way<H>(
    drive: DriveView<H>,
    tick: usize,
    cancel: AffCancel<H>,
)
    ensures
        drive.resumed(AffWait::Registered { tick, yields: true }, AffReply::Registered(cancel))
            == TurnView::Yielded(
            drive.machine.with_step(AffStep::Pending { tick, cancel }),
            drive.events,
        ),
{
}

/// A wait that is over when it is registered, and was registered without that
/// order, goes on at once on the same thread: the run does not stop at it.
pub proof fn law_early_resolution_goes_on<H>(
    machine: MachineView<H>,
    tick: usize,
    cancel: AffCancel<H>,
    result: AffResult<H>,
)
    requires
        machine.wf(),
        tick == machine.tick,
    ensures
        ({
            let drive = DriveView {
                machine,
                backlog: Seq::empty(),
                fresh: true,
                events: seq![AffEvent::Resolve(tick, result)],
            };
            drive.resumed(
                AffWait::Registered { tick, yields: false },
                AffReply::Registered(cancel),
            ) == (DriveView {
                machine: MachineView {
                    step: AffStep::Result(result),
                    tick: crate::machine::wrapping_next(machine.tick),
                    ..machine
                },
                backlog: Seq::empty(),
                fresh: false,
                events: Seq::empty(),
            }).run()
        }),
{
    let events = seq![AffEvent::Resolve(tick, result)];
    let drive = DriveView { machine, backlog: Seq::empty(), fresh: true, events };
    let waiting = drive.answered(
        AffWait::Registered { tick, yields: false },
        AffReply::Registered(cancel),
    );
    assert(waiting.backlog + waiting.events =~= events);
    let opened = DriveView {
        backlog: events,
        events: Seq::empty(),
        fresh: false,
        ..waiting
    };
    assert(waiting.run() == opened.run());
    assert(events.skip(1) =~= Seq::empty());
    let next = DriveView {
        machine: opened.machine.deliver(events[0]).0,
        backlog: events.skip(1),
        ..opened
    };
    assert(opened.run() == next.run());
}

/// A kill that has come while a synchronous section ran is taken into account
/// before the next instruction: what the section returned is dropped, and the
/// fiber unwinds.
pub proof fn law_kill_comes_before_the_next_instruction<H>(
    drive: DriveView<H>,
    outcome: AffResult<H>,
    error: AffValue<H>,
)
    requires
        drive.backlog.len() == 0,
        drive.machine.mask == 0,
        drive.events.len() > 0,
        drive.events[0] == AffEvent::Kill(error),
    ensures
        drive.resumed(AffWait::Outcome, AffReply::Outcome(outcome)) == (DriveView {
            machine: MachineView {
                step: crate::machine::idle_step(),
                interrupt: match drive.machine.interrupt {
                    Some(first) => Some(first),
                    None => Some(error),
                },
                tick: crate::machine::wrapping_next(drive.machine.tick),
                ..drive.machine
            },
            backlog: drive.events.skip(1),
            fresh: false,
            events: Seq::empty(),
        }).run(),
{
    let answered = drive.answered(AffWait::Outcome, AffReply::Outcome(outcome));
    let opened = DriveView {
        backlog: drive.events,
        events: Seq::empty(),
        fresh: false,
        ..answered
    };
    assert(answered.backlog + answered.events =~= drive.events);
    assert(answered.run() == opened.run());
    let next = DriveView {
        machine: opened.machine.deliver(opened.backlog[0]).0,
        backlog: opened.backlog.skip(1),
        ..opened
    };
    assert(opened.run() == next.run());
}

/// The error of the first kill among these events, if there is one.
pub open spec fn kill_among<H>(events: Seq<AffEvent<H>>) -> Option<AffValue<H>> {
    if has_kill(events) {
        Some(first_kill(events))
    } else {
        None
    }
}

/// The first of two errors, if there is any.
pub open spec fn sooner<H>(first: Option<AffValue<H>>, second: Option<AffValue<H>>) -> Option<
    AffValue<H>,
> {
    match first {
        Some(error) => Some(error),
        None => second,
    }
}

proof fn lemma_kill_among_concat<H>(a: Seq<AffEvent<H>>, b: Seq<AffEvent<H>>)
    ensures
        kill_among(a + b) == sooner(kill_among(a), kill_among(b)),
    decreases a.len(),
{
    if a.len() == 0 {
        assert(a + b =~= b);
    } else {
        assert((a + b).skip(1) =~= a.skip(1) + b);
        lemma_kill_among_concat(a.skip(1), b);
    }
}

/// The events that come to a fiber with one input, and with all of them.
pub open spec fn input_events<H>(input: LifeInput<H>) -> Seq<AffEvent<H>> {
    match input {
        LifeInput::Reply(_, events) => events,
        LifeInput::Wake(events) => events,
    }
}

pub open spec fn life_events<H>(inputs: Seq<LifeInput<H>>) -> Seq<AffEvent<H>>
    decreases inputs.len(),
{
    if inputs.len() == 0 {
        Seq::empty()
    } else {
        life_events(inputs.drop_last()) + input_events(inputs.last())
    }
}

impl<H> DriveView<H> {
    /// The error of the kill that counts, taken into account or not.
    pub open spec fn doom(self) -> Option<AffValue<H>> {
        sooner(self.machine.interrupt, kill_among(self.backlog + self.events))
    }
}

/// The error of the kill that counts where a run has ended. A finished machine
/// has been judged already.
pub open spec fn doom_left<H>(turn: TurnView<H>) -> Option<AffValue<H>> {
    match turn {
        TurnView::Ask { drive, .. } => drive.doom(),
        TurnView::Suspended(machine) => machine.interrupt,
        TurnView::Yielded(machine, left) => sooner(machine.interrupt, kill_among(left)),
        TurnView::Finished(result, _) => match result {
            Err(error) => Some(error),
            Ok(_) => None,
        },
    }
}

/// Whether no event can be left over when the machine finishes: one that waits
/// for the next round is taken up by it, and with something on the stack there
/// is a next round.
spec fn is_attentive<H>(drive: DriveView<H>) -> bool {
    drive.fresh || drive.events.len() == 0 || drive.machine.frames.len() > 0
}

/// Whether a run has ended where the kill `doom` counts.
spec fn is_doomed<H>(turn: TurnView<H>, doom: Option<AffValue<H>>) -> bool {
    match turn {
        TurnView::Ask { drive, request } => {
            &&& drive.doom() == doom
            &&& if wait_of(request) is Undo {
                drive.machine.frames.len() > 0
            } else {
                drive.backlog.len() == 0
            }
        },
        TurnView::Finished(result, left) => {
            &&& left.len() == 0
            &&& doom matches Some(error) ==> result == AffResult::<H>::Err(error)
        },
        _ => doom_left(turn) == doom,
    }
}

proof fn lemma_run_is_doomed<H>(drive: DriveView<H>)
    requires
        is_attentive(drive),
    ensures
        is_doomed(drive.run(), drive.doom()),
    decreases
            2 * drive.events.len() + drive.backlog.len(),
            machine_weight(drive.machine),
            drive.fresh as int,
{
    if drive.fresh {
        let next = DriveView {
            backlog: drive.backlog + drive.events,
            events: Seq::empty(),
            fresh: false,
            ..drive
        };
        assert(next.backlog + next.events =~= drive.backlog + drive.events);
        lemma_run_is_doomed(next);
    } else if drive.backlog.len() > 0 {
        let event = drive.backlog[0];
        let (machine, request) = drive.machine.deliver(event);
        let next = DriveView { machine, backlog: drive.backlog.skip(1), ..drive };
        assert((drive.backlog + drive.events).skip(1) =~= next.backlog + next.events);
        assert((drive.backlog + drive.events)[0] == event);
        assert(next.doom() == drive.doom());
        if request is None {
            lemma_run_is_doomed(next);
        }
    } else {
        assert(drive.backlog + drive.events =~= drive.events);
        match drive.machine.step {
            AffStep::Pending { .. } => {
                if drive.events.len() > 0 {
                    let next = DriveView { backlog: drive.events, events: Seq::empty(), ..drive };
                    assert(next.backlog + next.events =~= drive.events);
                    lemma_run_is_doomed(next);
                }
            },
            AffStep::Node(node) => {
                let (machine, request) = beginning(drive.machine, node);
                if request is None {
                    crate::driver::lemma_instruction_lighter(drive.machine);
                    lemma_run_is_doomed(DriveView { machine, fresh: true, ..drive });
                }
            },
            AffStep::Result(result) => {
                if drive.machine.frames.len() > 0 {
                    let frame = drive.machine.frames.last();
                    let (machine, request) = drive.machine.popped().unwind(frame, result);
                    if request is None {
                        crate::driver::lemma_unwind_lighter(drive.machine, result);
                        lemma_run_is_doomed(DriveView { machine, fresh: true, ..drive });
                    }
                }
            },
        }
    }
}

proof fn lemma_next_is_doomed<H>(
    turn: TurnView<H>,
    input: LifeInput<H>,
    doom: Option<AffValue<H>>,
)
    requires
        input_fits(turn, input),
        is_doomed(turn, doom),
    ensures
        is_doomed(next_turn(turn, input), sooner(doom, kill_among(input_events(input)))),
{
    let drive = going_on(turn, input);
    let events = input_events(input);
    match (turn, input) {
        (TurnView::Ask { drive: asking, .. }, LifeInput::Reply(reply, _)) => {
            let joined = asking.backlog + asking.events;
            lemma_kill_among_concat(joined, events);
            assert(asking.backlog + (asking.events + events) =~= joined + events);
            if drive.events.len() > (asking.events + events).len() {
                let late = drive.events.last();
                assert(drive.events =~= (asking.events + events).push(late));
                assert(drive.backlog + drive.events =~= (joined + events) + seq![late]);
                lemma_kill_among_concat(joined + events, seq![late]);
                assert(seq![late].skip(1) =~= Seq::empty());
                reveal_with_fuel(has_kill, 2);
            }
        },
        (TurnView::Yielded(_, left), _) => {
            lemma_kill_among_concat(left, events);
            assert(drive.backlog + drive.events =~= left + events);
        },
        _ => {
            assert(drive.backlog + drive.events =~= events);
        },
    }
    assert(drive.doom() == sooner(doom, kill_among(events)));
    if gives_way(turn, input) {
        assert(drive.backlog + drive.events =~= drive.events);
    } else {
        lemma_run_is_doomed(drive);
    }
}

proof fn lemma_life_is_doomed<H>(drive: DriveView<H>, inputs: Seq<LifeInput<H>>)
    requires
        is_attentive(drive),
        can_live(drive.run(), inputs),
    ensures
        is_doomed(
            life(drive.run(), inputs),
            sooner(
                drive.machine.interrupt,
                kill_among(drive.backlog + drive.events + life_events(inputs)),
            ),
        ),
    decreases inputs.len(),
{
    let first = drive.backlog + drive.events;
    lemma_kill_among_concat(first, life_events(inputs));
    if inputs.len() == 0 {
        lemma_run_is_doomed(drive);
    } else {
        let before = inputs.drop_last();
        lemma_life_is_doomed(drive, before);
        lemma_next_is_doomed(
            life(drive.run(), before),
            inputs.last(),
            sooner(drive.machine.interrupt, kill_among(first + life_events(before))),
        );
        lemma_kill_among_concat(first + life_events(before), input_events(inputs.last()));
        assert(first + life_events(inputs) =~= first + life_events(before) + input_events(
            inputs.last(),
        ));
    }
}

/// A fiber to which a kill has come while it lived ends with the error of the
/// first one, whatever else came, whatever its computations returned and however
/// often it was protected, handled errors or ran clean-ups on the way. As long
/// as it lives, that error is the one that is remembered or waits to be.
pub proof fn law_killed_fiber_ends_with_the_first_kill<H>(
    node: AffNodeRef<H>,
    events: Seq<AffEvent<H>>,
    inputs: Seq<LifeInput<H>>,
)
    requires
        can_live(
            (DriveView {
                machine: MachineView::start(node),
                backlog: Seq::empty(),
                fresh: true,
                events,
            }).run(),
            inputs,
        ),
    ensures
        ({
            let drive = DriveView {
                machine: MachineView::start(node),
                backlog: Seq::empty(),
                fresh: true,
                events,
            };
            let came = events + life_events(inputs);
            match life(drive.run(), inputs) {
                TurnView::Finished(result, left) => {
                    &&& left.len() == 0
                    &&& has_kill(came) ==> result == AffResult::<H>::Err(first_kill(came))
                },
                turn => doom_left(turn) == kill_among(came),
            }
        }),
{
    let drive = DriveView {
        machine: MachineView::start(node),
        backlog: Seq::empty(),
        fresh: true,
        events,
    };
    assert(drive.backlog + drive.events =~= events);
    lemma_life_is_doomed(drive, inputs);
}

} // verus!
