//! In which order things happen to a fiber: what a run does round by round, and
//! how a reply from outside is taken in.
use crate::driver::{
    reply_fits, wait_of, AffPause, AffReply, AffWait, DriveView, TurnView,
};
use crate::machine::{
    beginning, AffCancel, AffEvent, AffFrame, AffRequest, AffStep, MachineView,
};
use crate::value::{AffNative, AffNodeRef, AffResult, AffValue};
use vstd::prelude::*;

verus! {

/// A round begins by taking up everything that has come in, behind what was still
/// to be delivered.
pub proof fn law_round_takes_up_all_events<H>(drive: DriveView<H>)
    requires
        drive.fresh,
    ensures
        drive.run() == (DriveView {
            machine: drive.machine,
            backlog: drive.backlog + drive.events,
            fresh: false,
            events: Seq::empty(),
        }).run(),
{
}

/// Events are delivered before any step is taken, one after another in the order
/// in which they came. Where one of them needs outside work, the run stops, with
/// the events behind it still to be delivered.
pub proof fn law_events_come_first_and_in_order<H>(
    drive: DriveView<H>,
    event: AffEvent<H>,
    behind: Seq<AffEvent<H>>,
)
    requires
        !drive.fresh,
        drive.backlog == seq![event] + behind,
    ensures
        ({
            let (machine, request) = drive.machine.deliver(event);
            let next = DriveView { machine, backlog: behind, fresh: false, events: drive.events };
            &&& request is None ==> drive.run() == next.run()
            &&& request is Some ==> drive.run() == (TurnView::Ask {
                drive: next,
                request: request->0,
            })
        }),
{
    assert(drive.backlog.skip(1) =~= behind);
}

/// A fiber that waits stays where it is while nothing has come in, and takes up
/// what has.
pub proof fn law_waiting_fiber_takes_no_step<H>(drive: DriveView<H>)
    requires
        !drive.fresh,
        drive.backlog.len() == 0,
        drive.machine.step is Pending,
    ensures
        drive.events.len() == 0 ==> drive.run() == TurnView::Suspended(drive.machine),
        drive.events.len() > 0 ==> drive.run() == (DriveView {
            machine: drive.machine,
            backlog: drive.events,
            fresh: false,
            events: Seq::empty(),
        }).run(),
{
}

/// A description is begun when no event waits, and what comes of it opens the next
/// round.
pub proof fn law_description_is_begun<H>(drive: DriveView<H>, node: AffNodeRef<H>)
    requires
        !drive.fresh,
        drive.backlog.len() == 0,
        drive.machine.step == AffStep::<H>::Node(node),
    ensures
        ({
            let (machine, request) = beginning(drive.machine, node);
            let next = DriveView {
                machine,
                backlog: Seq::empty(),
                fresh: true,
                events: drive.events,
            };
            &&& request is None ==> drive.run() == next.run()
            &&& request is Some ==> drive.run() == (TurnView::Ask {
                drive: next,
                request: request->0,
            })
        }),
{
    assert(drive.backlog =~= Seq::empty());
    let next = DriveView { machine: beginning(drive.machine, node).0, fresh: true, ..drive };
    assert(next.backlog == Seq::<AffEvent<H>>::empty());
}

/// A result goes to the newest frame of the stack, and the frame is taken off.
pub proof fn law_result_meets_the_newest_frame<H>(
    drive: DriveView<H>,
    older: Seq<AffFrame<H>>,
    frame: AffFrame<H>,
    result: AffResult<H>,
)
    requires
        !drive.fresh,
        drive.backlog.len() == 0,
        drive.machine.step == AffStep::Result(result),
        drive.machine.frames == older.push(frame),
    ensures
        ({
            let (machine, request) = (MachineView { frames: older, ..drive.machine }).unwind(
                frame,
                result,
            );
            let next = DriveView {
                machine,
                backlog: Seq::empty(),
                fresh: true,
                events: drive.events,
            };
            &&& request is None ==> drive.run() == next.run()
            &&& request is Some ==> drive.run() == (TurnView::Ask {
                drive: next,
                request: request->0,
            })
        }),
{
    assert(drive.backlog =~= Seq::empty());
    assert(drive.machine.frames.drop_last() =~= older);
    assert(drive.machine.popped() == (MachineView { frames: older, ..drive.machine }));
}

/// With its stack empty a fiber is done: it ends with the error it was killed
/// with, and otherwise with its result.
pub proof fn law_fiber_is_done_with_an_empty_stack<H>(drive: DriveView<H>, result: AffResult<H>)
    requires
        !drive.fresh,
        drive.backlog.len() == 0,
        drive.machine.step == AffStep::Result(result),
        drive.machine.frames.len() == 0,
    ensures
        drive.machine.interrupt is None ==> drive.run() == TurnView::Finished(result, drive.events),
        drive.machine.interrupt is Some ==> drive.run() == TurnView::<H>::Finished(
            Err(drive.machine.interrupt->0),
            drive.events,
        ),
{
}

/// The fiber goes on with what an effect or a function came to.
pub proof fn law_outcome_is_the_result<H>(drive: DriveView<H>, result: AffResult<H>)
    ensures
        ({
            let next = drive.answered(AffWait::Outcome, AffReply::Outcome(result));
            &&& next.machine.step == AffStep::Result(result)
            &&& keeps_all_but_step(drive, next)
            &&& next.events == drive.events
            &&& next.fresh
        }),
        drive.resumed(AffWait::Outcome, AffReply::Outcome(result)) == drive.answered(
            AffWait::Outcome,
            AffReply::Outcome(result),
        ).run(),
{
}

/// Whether a machine was left alone but for what it does next, and so were the
/// events that are being delivered.
pub open spec fn keeps_all_but_step<H>(a: DriveView<H>, b: DriveView<H>) -> bool {
    &&& a.machine.frames == b.machine.frames
    &&& a.machine.mask == b.machine.mask
    &&& a.machine.interrupt == b.machine.interrupt
    &&& a.machine.tick == b.machine.tick
    &&& a.backlog == b.backlog
}

/// The fiber goes on with the computation that came back, or fails with the error
/// that was thrown instead. Events that were being delivered when a wait had to be
/// undone are delivered before anything else; otherwise a new round begins.
pub proof fn law_computation_that_came_back_is_next<H>(
    drive: DriveView<H>,
    node: AffNodeRef<H>,
    error: AffValue<H>,
    undoing: bool,
)
    ensures
        ({
            let wait = if undoing {
                AffWait::Undo
            } else {
                AffWait::Next
            };
            let next = drive.answered(wait, AffReply::Next(Ok(AffValue::Aff(node))));
            let failed = drive.answered(wait, AffReply::Next(Err(error)));
            &&& next.machine.step == AffStep::<H>::Node(node)
            &&& failed.machine.step == AffStep::<H>::Result(Err(error))
            &&& keeps_all_but_step(drive, next) && keeps_all_but_step(drive, failed)
            &&& next.events == drive.events && failed.events == drive.events
            &&& next.fresh == !undoing && failed.fresh == !undoing
            &&& drive.resumed(wait, AffReply::Next(Ok(AffValue::Aff(node)))) == next.run()
            &&& drive.resumed(wait, AffReply::Next(Err(error))) == failed.run()
        }),
{
}

/// A builder that returned leaves a wait with the canceler that it returned. One
/// that threw leaves a wait that ends with its error and has nothing to undo.
pub proof fn law_built_wait<H>(
    drive: DriveView<H>,
    tick: usize,
    canceler: AffValue<H>,
    error: AffValue<H>,
)
    ensures
        ({
            let wait = AffWait::Built(tick);
            let built = drive.answered(wait, AffReply::Built(Ok(canceler)));
            let failed = drive.answered(wait, AffReply::Built(Err(error)));
            &&& built.machine.step == (AffStep::Pending {
                tick,
                cancel: AffCancel::Foreign(canceler),
            })
            &&& failed.machine.step == (AffStep::<H>::Pending { tick, cancel: AffCancel::Nothing })
            &&& keeps_all_but_step(drive, built) && keeps_all_but_step(drive, failed)
            &&& built.events == drive.events
            &&& failed.events == drive.events.push(AffEvent::Resolve(tick, Err(error)))
            &&& built.fresh && failed.fresh
            &&& drive.resumed(wait, AffReply::Built(Ok(canceler))) == built.run()
            &&& drive.resumed(wait, AffReply::Built(Err(error))) == failed.run()
        }),
{
}

/// A wait that has been registered can be given up by what came back. With the
/// order to give way the fiber leaves its thread at once and takes its events
/// along; without it, it goes on.
pub proof fn law_registered_wait<H>(
    drive: DriveView<H>,
    tick: usize,
    yields: bool,
    cancel: AffCancel<H>,
)
    ensures
        ({
            let wait = AffWait::Registered { tick, yields };
            let reply = AffReply::Registered(cancel);
            let next = drive.answered(wait, reply);
            &&& next.machine.step == (AffStep::Pending { tick, cancel })
            &&& keeps_all_but_step(drive, next)
            &&& next.events == drive.events
            &&& next.fresh
            &&& yields ==> drive.resumed(wait, reply) == TurnView::Yielded(
                next.machine,
                drive.events,
            )
            &&& !yields ==> drive.resumed(wait, reply) == next.run()
        }),
{
}

/// Which reply a request calls for.
pub proof fn law_requests_call_for_replies<H>(
    f: AffValue<H>,
    x: AffValue<H>,
    node: AffNodeRef<H>,
    cancel: AffCancel<H>,
    build: AffNative<H>,
    tick: usize,
    flag: bool,
    token: usize,
)
    ensures
        wait_of(AffRequest::Effect(f)) is Outcome,
        wait_of(AffRequest::Transform(f, x)) is Outcome,
        wait_of(AffRequest::<H>::Fork(flag, node)) is Outcome,
        wait_of(AffRequest::<H>::Revoke(token)) is Outcome,
        wait_of(AffRequest::Continue(f, x)) is Next,
        wait_of(AffRequest::Finalize { handler: f, argument: x, resource: x }) is Next,
        wait_of(AffRequest::Cancel(cancel, x)) is Undo,
        wait_of(AffRequest::Async(f, tick)) == AffWait::Built(tick),
        wait_of(AffRequest::Native { build, tick, yields: flag }) == (AffWait::Registered {
            tick,
            yields: flag,
        }),
        wait_of(AffRequest::<H>::Parallel(node, tick)) == (AffWait::Registered {
            tick,
            yields: false,
        }),
        wait_of(AffRequest::<H>::Misuse) is Never,
{
}

/// A reply is taken by the request that calls for it and by no other, and a
/// computation is taken only for one.
pub proof fn law_replies_fit_their_requests<H>(
    wait: AffWait,
    result: AffResult<H>,
    cancel: AffCancel<H>,
)
    ensures
        reply_fits(wait, AffReply::Outcome(result)) <==> wait is Outcome,
        reply_fits(wait, AffReply::Built(result)) <==> wait is Built,
        reply_fits(wait, AffReply::Registered(cancel)) <==> wait is Registered,
        reply_fits(wait, AffReply::Next(result)) <==> (wait is Next || wait is Undo) && (
        result is Err || result->Ok_0 is Aff),
{
}

/// Where a run has stopped is shown as it is: the machine, the events that are
/// still to be delivered and those that have come in since, and the result.
pub proof fn law_pauses_are_shown_as_they_are<H>(pause: &AffPause<H>, events: Seq<AffEvent<H>>)
    ensures
        match *pause {
            AffPause::Ask(driver, request) => {
                &&& pause.turn(events) is Ask
                &&& pause.turn(events)->request == request
                &&& pause.turn(events)->drive.machine == driver.machine@
                &&& pause.turn(events)->drive.backlog == driver.backlog@
                &&& pause.turn(events)->drive.fresh == driver.fresh
                &&& pause.turn(events)->drive.events == events
            },
            AffPause::Suspended(machine) => pause.turn(events) == TurnView::Suspended(machine@),
            AffPause::Yielded(machine) => pause.turn(events) == TurnView::Yielded(machine@, events),
            AffPause::Finished(result) => pause.turn(events) == TurnView::Finished(result, events),
        },
{
}

/// A fiber in the middle of a run, with nothing come in for it.
pub open spec fn undisturbed<H>(
    machine: MachineView<H>,
    step: AffStep<H>,
    frames: Seq<AffFrame<H>>,
) -> DriveView<H> {
    DriveView {
        machine: MachineView { step, frames, ..machine },
        backlog: Seq::empty(),
        fresh: false,
        events: Seq::empty(),
    }
}

proof fn lemma_quiet_round<H>(drive: DriveView<H>)
    requires
        drive.fresh,
        drive.backlog.len() == 0,
        drive.events.len() == 0,
    ensures
        drive.run() == undisturbed(drive.machine, drive.machine.step, drive.machine.frames).run(),
{
    assert(drive.backlog + drive.events =~= Seq::empty());
}

/// Whether all these frames wait for a value, and none for an error.
pub open spec fn wait_for_values<H>(frames: Seq<AffFrame<H>>) -> bool {
    forall|i: int|
        0 <= i < frames.len() ==> (#[trigger] frames[i]) is Bind || frames[i] is Mapping
}

/// Whether all these frames wait for an error, and none for a value.
pub open spec fn wait_for_errors<H>(frames: Seq<AffFrame<H>>) -> bool {
    forall|i: int| 0 <= i < frames.len() ==> (#[trigger] frames[i]) is Catch
}

/// An error passes whatever waits for values, however much of it there is, and comes
/// out below as the same error.
pub proof fn law_error_falls_through<H>(
    machine: MachineView<H>,
    older: Seq<AffFrame<H>>,
    passed: Seq<AffFrame<H>>,
    error: AffValue<H>,
)
    requires
        wait_for_values(passed),
    ensures
        undisturbed(machine, AffStep::Result(Err(error)), older + passed).run() == undisturbed(
            machine,
            AffStep::Result(Err(error)),
            older,
        ).run(),
    decreases passed.len(),
{
    if passed.len() == 0 {
        assert(older + passed =~= older);
    } else {
        let fewer = passed.drop_last();
        let frame = passed.last();
        let drive = undisturbed(machine, AffStep::Result(Err(error)), older + passed);
        assert(older + passed =~= (older + fewer).push(frame));
        law_result_meets_the_newest_frame(drive, older + fewer, frame, Err(error));
        assert(passed[passed.len() - 1] is Bind || passed[passed.len() - 1] is Mapping);
        let below = (MachineView { frames: older + fewer, ..drive.machine }).unwind(
            frame,
            Err(error),
        ).0;
        assert(below == (MachineView {
            step: AffStep::<H>::Result(Err(error)),
            frames: older + fewer,
            ..machine
        }));
        lemma_quiet_round(
            DriveView {
                machine: below,
                backlog: Seq::empty(),
                fresh: true,
                events: Seq::empty(),
            },
        );
        assert forall|i: int| 0 <= i < fewer.len() implies (#[trigger] fewer[i]) is Bind
            || fewer[i] is Mapping by {
            assert(fewer[i] == passed[i]);
        }
        law_error_falls_through(machine, older, fewer, error);
    }
}

/// A value passes whatever waits for errors, and comes out below as the same value.
pub proof fn law_value_falls_through<H>(
    machine: MachineView<H>,
    older: Seq<AffFrame<H>>,
    passed: Seq<AffFrame<H>>,
    value: AffValue<H>,
)
    requires
        wait_for_errors(passed),
    ensures
        undisturbed(machine, AffStep::Result(Ok(value)), older + passed).run() == undisturbed(
            machine,
            AffStep::Result(Ok(value)),
            older,
        ).run(),
    decreases passed.len(),
{
    if passed.len() == 0 {
        assert(older + passed =~= older);
    } else {
        let fewer = passed.drop_last();
        let frame = passed.last();
        let drive = undisturbed(machine, AffStep::Result(Ok(value)), older + passed);
        assert(older + passed =~= (older + fewer).push(frame));
        law_result_meets_the_newest_frame(drive, older + fewer, frame, Ok(value));
        assert(passed[passed.len() - 1] is Catch);
        let below = (MachineView { frames: older + fewer, ..drive.machine }).unwind(
            frame,
            Ok(value),
        ).0;
        assert(below == (MachineView {
            step: AffStep::<H>::Result(Ok(value)),
            frames: older + fewer,
            ..machine
        }));
        lemma_quiet_round(
            DriveView {
                machine: below,
                backlog: Seq::empty(),
                fresh: true,
                events: Seq::empty(),
            },
        );
        assert forall|i: int| 0 <= i < fewer.len() implies (#[trigger] fewer[i]) is Catch by {
            assert(fewer[i] == passed[i]);
        }
        law_value_falls_through(machine, older, fewer, value);
    }
}

/// A fiber fails with the error of its computation if nothing on its stack handles
/// errors, and it has not been killed: no function that waits for a value is called.
pub proof fn law_unhandled_error_ends_the_fiber<H>(
    machine: MachineView<H>,
    frames: Seq<AffFrame<H>>,
    error: AffValue<H>,
)
    requires
        wait_for_values(frames),
        machine.interrupt is None,
    ensures
        undisturbed(machine, AffStep::Result(Err(error)), frames).run() == TurnView::<H>::Finished(
            Err(error),
            Seq::empty(),
        ),
{
    assert(Seq::<AffFrame<H>>::empty() + frames =~= frames);
    law_error_falls_through(machine, Seq::empty(), frames, error);
}

/// The value of a computation reaches the function it is bound to, or mapped by, and
/// an error the handler that guards it, and nothing comes between.
pub proof fn law_results_are_handed_over<H>(
    machine: MachineView<H>,
    frames: Seq<AffFrame<H>>,
    f: AffValue<H>,
    x: AffValue<H>,
)
    requires
        machine.interrupt is None,
    ensures
        ({
            let turn = undisturbed(
                machine,
                AffStep::Result(Ok(x)),
                frames.push(AffFrame::Bind(f, false)),
            ).run();
            turn is Ask && turn->request == AffRequest::Continue(f, x) && turn->drive.machine.frames
                == frames
        }),
        ({
            let turn = undisturbed(
                machine,
                AffStep::Result(Ok(x)),
                frames.push(AffFrame::Mapping(f, false)),
            ).run();
            turn is Ask && turn->request == AffRequest::Transform(f, x)
                && turn->drive.machine.frames == frames
        }),
        ({
            let turn = undisturbed(
                machine,
                AffStep::Result(Err(x)),
                frames.push(AffFrame::Catch(f, false)),
            ).run();
            turn is Ask && turn->request == AffRequest::Continue(f, x) && turn->drive.machine.frames
                == frames
        }),
{
    law_result_meets_the_newest_frame(
        undisturbed(machine, AffStep::Result(Ok(x)), frames.push(AffFrame::Bind(f, false))),
        frames,
        AffFrame::Bind(f, false),
        Ok(x),
    );
    law_result_meets_the_newest_frame(
        undisturbed(machine, AffStep::Result(Ok(x)), frames.push(AffFrame::Mapping(f, false))),
        frames,
        AffFrame::Mapping(f, false),
        Ok(x),
    );
    law_result_meets_the_newest_frame(
        undisturbed(machine, AffStep::Result(Err(x)), frames.push(AffFrame::Catch(f, false))),
        frames,
        AffFrame::Catch(f, false),
        Err(x),
    );
}

/// A bracket from its resource to its result: the resource goes to the computation
/// that uses it; whatever that comes to, this very resource is let go of, in the way
/// that fits; and what the use came to is the result of the bracket, whatever the
/// clean-up came to.
pub proof fn law_bracket_passes_its_resource_through<H>(
    machine: MachineView<H>,
    frames: Seq<AffFrame<H>>,
    options: crate::value::AffConditions<H>,
    use_resource: AffValue<H>,
    resource: AffValue<H>,
    used: AffResult<H>,
    cleaned: AffResult<H>,
)
    requires
        machine.interrupt is None,
        machine.mask == 0,
    ensures
        ({
            let acquired = undisturbed(
                MachineView { mask: 1, ..machine },
                AffStep::Result(Ok(resource)),
                frames.push(AffFrame::Acquire { options, use_resource, interrupted: false }),
            ).run();
            &&& acquired is Ask
            &&& acquired->request == AffRequest::Continue(use_resource, resource)
            &&& acquired->drive.machine.frames == frames.push(
                AffFrame::Release { options, resource, interrupted: false },
            )
            &&& acquired->drive.machine.mask == 0
        }),
        ({
            let done = undisturbed(
                machine,
                AffStep::Result(used),
                frames.push(AffFrame::Release { options, resource, interrupted: false }),
            ).run();
            &&& done is Ask
            &&& used is Ok ==> done->request == (AffRequest::Finalize {
                handler: options.completed,
                argument: used->Ok_0,
                resource,
            })
            &&& used is Err ==> done->request == (AffRequest::Finalize {
                handler: options.failed,
                argument: used->Err_0,
                resource,
            })
            &&& done->drive.machine.frames == frames.push(AffFrame::Finalized(used))
        }),
        undisturbed(
            MachineView { mask: 1, ..machine },
            AffStep::Result(cleaned),
            frames.push(AffFrame::Finalized(used)),
        ).run() == undisturbed(machine, AffStep::Result(used), frames).run(),
{
    let masked = MachineView { mask: 1, ..machine };
    let acquire = AffFrame::Acquire { options, use_resource, interrupted: false };
    let release = AffFrame::Release { options, resource, interrupted: false };
    let acquiring = undisturbed(masked, AffStep::Result(Ok(resource)), frames.push(acquire));
    law_result_meets_the_newest_frame(acquiring, frames, acquire, Ok(resource));
    let using = undisturbed(machine, AffStep::Result(used), frames.push(release));
    law_result_meets_the_newest_frame(using, frames, release, used);
    let cleaning = undisturbed(
        masked,
        AffStep::Result(cleaned),
        frames.push(AffFrame::Finalized(used)),
    );
    law_result_meets_the_newest_frame(cleaning, frames, AffFrame::Finalized(used), cleaned);
    let below = (MachineView { frames, ..cleaning.machine }).unwind(
        AffFrame::Finalized(used),
        cleaned,
    ).0;
    lemma_quiet_round(
        DriveView { machine: below, backlog: Seq::empty(), fresh: true, events: Seq::empty() },
    );
}

} // verus!
