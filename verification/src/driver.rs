//! The loop that moves a machine from one piece of outside work to the next.
use crate::machine::{AffCancel, AffEvent, AffFrame, AffMachine, AffRequest, AffStep, MachineView};
use crate::value::{aff_node, node_size, AffResult, AffValue};
use std::collections::VecDeque;
use vstd::prelude::*;

verus! {

/// The kind of reply that a request calls for.
#[derive(Clone, Copy, PartialEq, Eq, Structural, Debug)]
pub enum AffWait {
    /// The result of the step.
    Outcome,
    /// The computation that comes next.
    Next,
    /// The computation that undoes a wait.
    Undo,
    /// The canceler that a builder made for this tick.
    Built(usize),
    /// The canceler of a wait that was registered for this tick.
    Registered { tick: usize, yields: bool },
    /// No reply is possible.
    Never,
}

/// What came of a request.
pub enum AffReply<H> {
    Outcome(AffResult<H>),
    /// A boxed computation, or the error that was thrown instead.
    Next(AffResult<H>),
    /// A canceling function, or the error that was thrown instead.
    Built(AffResult<H>),
    Registered(AffCancel<H>),
}

pub open spec fn wait_of<H>(request: AffRequest<H>) -> AffWait {
    match request {
        AffRequest::Effect(_) => AffWait::Outcome,
        AffRequest::Transform(..) => AffWait::Outcome,
        AffRequest::Fork(..) => AffWait::Outcome,
        AffRequest::Revoke(_) => AffWait::Outcome,
        AffRequest::Continue(..) => AffWait::Next,
        AffRequest::Finalize { .. } => AffWait::Next,
        AffRequest::Cancel(..) => AffWait::Undo,
        AffRequest::Async(_, tick) => AffWait::Built(tick),
        AffRequest::Native { tick, yields, .. } => AffWait::Registered { tick, yields },
        AffRequest::Parallel(_, tick) => AffWait::Registered { tick, yields: false },
        AffRequest::Misuse => AffWait::Never,
    }
}

/// Whether `reply` is one that a request of this kind can get.
pub open spec fn reply_fits<H>(wait: AffWait, reply: AffReply<H>) -> bool {
    match reply {
        AffReply::Outcome(_) => wait is Outcome,
        AffReply::Next(result) => (wait is Next || wait is Undo) && (result matches Ok(value)
            ==> value is Aff),
        AffReply::Built(_) => wait is Built,
        AffReply::Registered(_) => wait is Registered,
    }
}

/// A machine on the move: the events that are being delivered, and those that
/// wait for the next round. `fresh` marks the beginning of a round.
#[verifier::ext_equal]
pub struct DriveView<H> {
    pub machine: MachineView<H>,
    pub backlog: Seq<AffEvent<H>>,
    pub fresh: bool,
    pub events: Seq<AffEvent<H>>,
}

/// Where a run ends.
pub enum TurnView<H> {
    /// Outside work is needed.
    Ask { drive: DriveView<H>, request: AffRequest<H> },
    /// The machine waits, and no event is left for it.
    Suspended(MachineView<H>),
    /// The machine has given back its thread, with these events left for it.
    Yielded(MachineView<H>, Seq<AffEvent<H>>),
    /// The fiber is done.
    Finished(AffResult<H>, Seq<AffEvent<H>>),
}

pub open spec fn frame_weight<H>(frame: AffFrame<H>) -> nat {
    if frame is Acquire {
        2
    } else {
        1
    }
}

pub open spec fn frames_weight<H>(frames: Seq<AffFrame<H>>) -> nat
    decreases frames.len(),
{
    if frames.len() == 0 {
        0
    } else {
        frames_weight(frames.drop_last()) + frame_weight(frames.last())
    }
}

proof fn lemma_weight_push<H>(frames: Seq<AffFrame<H>>, frame: AffFrame<H>)
    ensures
        frames_weight(frames.push(frame)) == frames_weight(frames) + frame_weight(frame),
{
    assert(frames.push(frame).drop_last() =~= frames);
}

/// A bound on the rounds that a machine can go through on its own.
pub open spec fn machine_weight<H>(machine: MachineView<H>) -> nat {
    frames_weight(machine.frames) + match machine.step {
        AffStep::Node(node) => 3 * node_size(node.node),
        _ => 0,
    }
}

impl<H> MachineView<H> {
    /// The machine with its topmost frame taken off.
    pub open spec fn popped(self) -> MachineView<H> {
        MachineView { frames: self.frames.drop_last(), ..self }
    }

    /// What a fiber ends with once its stack is empty: the error it was killed
    /// with comes before any result.
    pub open spec fn verdict(self, result: AffResult<H>) -> AffResult<H> {
        match self.interrupt {
            Some(error) => Err(error),
            None => result,
        }
    }
}

pub proof fn lemma_instruction_lighter<H>(machine: MachineView<H>)
    requires
        machine.step is Node,
        machine.instruction(machine.step->Node_0.node).1 is None,
    ensures
        machine_weight(machine.instruction(machine.step->Node_0.node).0) < machine_weight(machine),
{
    let node = machine.step->Node_0.node;
    let next = machine.instruction(node).0;
    if next.frames.len() > machine.frames.len() {
        lemma_weight_push(machine.frames, next.frames.last());
        assert(next.frames =~= machine.frames.push(next.frames.last()));
    }
}

pub proof fn lemma_unwind_lighter<H>(machine: MachineView<H>, result: AffResult<H>)
    requires
        machine.step == AffStep::Result(result),
        machine.frames.len() > 0,
        machine.popped().unwind(machine.frames.last(), result).1 is None,
    ensures
        machine_weight(machine.popped().unwind(machine.frames.last(), result).0) < machine_weight(
            machine,
        ),
{
    let next = machine.popped().unwind(machine.frames.last(), result).0;
    if next.frames.len() == machine.frames.len() {
        lemma_weight_push(machine.popped().frames, next.frames.last());
        assert(next.frames =~= machine.popped().frames.push(next.frames.last()));
    }
}

impl<H> DriveView<H> {
    pub open spec fn with_machine(self, machine: MachineView<H>) -> DriveView<H> {
        DriveView { machine, ..self }
    }

    /// One round after another. A round first delivers the events that have
    /// come in, then takes one step. A suspended machine takes no step: it goes
    /// on only if events have come in meanwhile.
    pub open spec fn run(self) -> TurnView<H>
        decreases
                2 * self.events.len() + self.backlog.len(),
                machine_weight(self.machine),
                self.fresh as int,
    {
        if self.fresh {
            DriveView {
                backlog: self.backlog + self.events,
                events: Seq::empty(),
                fresh: false,
                ..self
            }.run()
        } else if self.backlog.len() > 0 {
            let (machine, request) = self.machine.deliver(self.backlog[0]);
            let next = DriveView { machine, backlog: self.backlog.skip(1), ..self };
            match request {
                Some(request) => TurnView::Ask { drive: next, request },
                None => next.run(),
            }
        } else {
            match self.machine.step {
                AffStep::Pending { .. } => if self.events.len() > 0 {
                    DriveView { backlog: self.events, events: Seq::empty(), ..self }.run()
                } else {
                    TurnView::Suspended(self.machine)
                },
                AffStep::Node(node) => {
                    let (machine, request) = self.machine.instruction(node.node);
                    let next = DriveView { machine, fresh: true, ..self };
                    match request {
                        Some(request) => TurnView::Ask { drive: next, request },
                        None => {
                            proof {
                                lemma_instruction_lighter(self.machine);
                            }
                            next.run()
                        },
                    }
                },
                AffStep::Result(result) => if self.machine.frames.len() == 0 {
                    TurnView::Finished(self.machine.verdict(result), self.events)
                } else {
                    let (machine, request) = self.machine.popped().unwind(
                        self.machine.frames.last(),
                        result,
                    );
                    let next = DriveView { machine, fresh: true, ..self };
                    match request {
                        Some(request) => TurnView::Ask { drive: next, request },
                        None => {
                            proof {
                                lemma_unwind_lighter(self.machine, result);
                            }
                            next.run()
                        },
                    }
                },
            }
        }
    }

    /// The machine on the move again, with the reply to its request taken in.
    pub open spec fn answered(self, wait: AffWait, reply: AffReply<H>) -> DriveView<H> {
        let begun = DriveView { fresh: wait != AffWait::Undo, ..self };
        match (wait, reply) {
            (_, AffReply::Outcome(result)) => begun.with_machine(
                self.machine.with_step(AffStep::Result(result)),
            ),
            (_, AffReply::Next(Ok(value))) => begun.with_machine(
                self.machine.with_step(AffStep::Node(value->Aff_0)),
            ),
            (_, AffReply::Next(Err(error))) => begun.with_machine(
                self.machine.with_step(AffStep::Result(Err(error))),
            ),
            (AffWait::Built(tick), AffReply::Built(Ok(canceler))) => begun.with_machine(
                self.machine.with_step(
                    AffStep::Pending { tick, cancel: AffCancel::Foreign(canceler) },
                ),
            ),
            (AffWait::Built(tick), AffReply::Built(Err(error))) => DriveView {
                machine: self.machine.with_step(
                    AffStep::Pending { tick, cancel: AffCancel::Nothing },
                ),
                events: self.events.push(AffEvent::Resolve(tick, Err(error))),
                ..begun
            },
            (AffWait::Registered { tick, .. }, AffReply::Registered(cancel)) => begun.with_machine(
                self.machine.with_step(AffStep::Pending { tick, cancel }),
            ),
            _ => begun,
        }
    }

    /// Where the run that follows a reply ends. A wait that was registered with
    /// `yields` ends it at once, whatever has come in.
    pub open spec fn resumed(self, wait: AffWait, reply: AffReply<H>) -> TurnView<H> {
        let next = self.answered(wait, reply);
        if wait matches AffWait::Registered { yields, .. } && yields {
            TurnView::Yielded(next.machine, next.events)
        } else {
            next.run()
        }
    }
}

/// A machine on the move that waits for a reply.
pub struct AffDriver<H> {
    pub machine: AffMachine<H>,
    pub backlog: VecDeque<AffEvent<H>>,
    pub fresh: bool,
    pub wait: AffWait,
}

#[verifier::ext_equal]
pub struct DriverView<H> {
    pub machine: MachineView<H>,
    pub backlog: Seq<AffEvent<H>>,
    pub fresh: bool,
    pub wait: AffWait,
}

impl<H> View for AffDriver<H> {
    type V = DriverView<H>;

    open spec fn view(&self) -> DriverView<H> {
        DriverView {
            machine: self.machine@,
            backlog: self.backlog@,
            fresh: self.fresh,
            wait: self.wait,
        }
    }
}

impl<H> DriverView<H> {
    pub open spec fn drive(self, events: Seq<AffEvent<H>>) -> DriveView<H> {
        DriveView { machine: self.machine, backlog: self.backlog, fresh: self.fresh, events }
    }

    /// A driver that waits for a registration keeps the tick it registers.
    pub open spec fn wf(self) -> bool {
        &&& self.machine.wf()
        &&& self.wait matches AffWait::Built(tick) ==> tick == self.machine.tick
        &&& self.wait matches AffWait::Registered { tick, .. } ==> tick == self.machine.tick
        &&& !(self.machine.step is Pending)
        &&& self.wait != AffWait::Undo ==> self.backlog.len() == 0
    }
}

/// The driver that waits for the reply to `request`.
pub open spec fn driver_of<H>(drive: DriveView<H>, request: AffRequest<H>) -> DriverView<H> {
    DriverView {
        machine: drive.machine,
        backlog: drive.backlog,
        fresh: drive.fresh,
        wait: wait_of(request),
    }
}

/// Where a run ends.
pub enum AffPause<H> {
    Ask(AffDriver<H>, AffRequest<H>),
    Suspended(AffMachine<H>),
    Yielded(AffMachine<H>),
    Finished(AffResult<H>),
}

impl<H> AffPause<H> {
    /// The pause as a place where a run ends, with `events` left over.
    pub open spec fn turn(self, events: Seq<AffEvent<H>>) -> TurnView<H> {
        match self {
            AffPause::Ask(driver, request) => TurnView::Ask { drive: driver@.drive(events), request },
            AffPause::Suspended(machine) => TurnView::Suspended(machine@),
            AffPause::Yielded(machine) => TurnView::Yielded(machine@, events),
            AffPause::Finished(result) => TurnView::Finished(result, events),
        }
    }

    pub open spec fn wf(self) -> bool {
        match self {
            AffPause::Ask(driver, request) => driver@.wf() && driver.wait == wait_of(request),
            AffPause::Suspended(machine) => machine@.wf() && machine.step is Pending,
            AffPause::Yielded(machine) => machine@.wf() && machine.step is Pending,
            AffPause::Finished(_) => true,
        }
    }
}

fn request_wait<H>(request: &AffRequest<H>) -> (wait: AffWait)
    ensures
        wait == wait_of(*request),
{
    match request {
        AffRequest::Effect(_) => AffWait::Outcome,
        AffRequest::Transform(..) => AffWait::Outcome,
        AffRequest::Fork(..) => AffWait::Outcome,
        AffRequest::Revoke(_) => AffWait::Outcome,
        AffRequest::Continue(..) => AffWait::Next,
        AffRequest::Finalize { .. } => AffWait::Next,
        AffRequest::Cancel(..) => AffWait::Undo,
        AffRequest::Async(_, tick) => AffWait::Built(*tick),
        AffRequest::Native { tick, yields, .. } => AffWait::Registered {
            tick: *tick,
            yields: *yields,
        },
        AffRequest::Parallel(_, tick) => AffWait::Registered { tick: *tick, yields: false },
        AffRequest::Misuse => AffWait::Never,
    }
}

/// Whether `reply` is one that a request of this kind can get.
pub fn is_reply_for<H>(wait: AffWait, reply: &AffReply<H>) -> (fits: bool)
    ensures
        fits == reply_fits(wait, *reply),
{
    match reply {
        AffReply::Outcome(_) => match wait {
            AffWait::Outcome => true,
            _ => false,
        },
        AffReply::Next(result) => {
            let kind: bool = match wait {
                AffWait::Next | AffWait::Undo => true,
                _ => false,
            };
            let boxed: bool = match result {
                Ok(AffValue::Aff(_)) => true,
                Ok(_) => false,
                Err(_) => true,
            };
            kind && boxed
        },
        AffReply::Built(_) => match wait {
            AffWait::Built(_) => true,
            _ => false,
        },
        AffReply::Registered(_) => match wait {
            AffWait::Registered { .. } => true,
            _ => false,
        },
    }
}

fn take_events<H>(events: &mut VecDeque<AffEvent<H>>) -> (taken: VecDeque<AffEvent<H>>)
    ensures
        taken@ == old(events)@,
        final(events)@ == Seq::<AffEvent<H>>::empty(),
{
    let mut taken: VecDeque<AffEvent<H>> = VecDeque::new();
    std::mem::swap(events, &mut taken);
    taken
}

/// Runs a machine until it needs outside work, waits or is done.
pub fn aff_run<H>(
    begun: AffMachine<H>,
    delivery: VecDeque<AffEvent<H>>,
    opening: bool,
    events: &mut VecDeque<AffEvent<H>>,
) -> (pause: AffPause<H>)
    requires
        begun@.wf(),
        opening ==> delivery@.len() == 0,
    ensures
        pause.turn(final(events)@) == (DriveView {
            machine: begun@,
            backlog: delivery@,
            fresh: opening,
            events: old(events)@,
        }).run(),
        pause.wf(),
        !(pause is Yielded),
        pause is Suspended ==> final(events)@.len() == 0,
{
    let mut machine: AffMachine<H> = begun;
    let mut backlog: VecDeque<AffEvent<H>> = delivery;
    let mut fresh: bool = opening;
    let ghost start = DriveView { machine: machine@, backlog: backlog@, fresh, events: events@ };
    loop
        invariant
            start == (DriveView {
                machine: begun@,
                backlog: delivery@,
                fresh: opening,
                events: old(events)@,
            }),
            machine@.wf(),
            fresh ==> backlog@.len() == 0,
            start.run() == (DriveView {
                machine: machine@,
                backlog: backlog@,
                fresh,
                events: events@,
            }).run(),
        decreases
                2 * events@.len() + backlog@.len(),
                machine_weight(machine@),
                fresh as int,
    {
        let ghost here = DriveView { machine: machine@, backlog: backlog@, fresh, events: events@ };
        if fresh {
            backlog = take_events(events);
            fresh = false;
            assert(here.backlog + here.events =~= backlog@);
            continue;
        }
        match backlog.pop_front() {
            Some(event) => {
                assert(here.backlog.skip(1) =~= backlog@);
                let request: Option<AffRequest<H>> = machine.deliver(event);
                if let Some(request) = request {
                    let wait: AffWait = request_wait(&request);
                    return AffPause::Ask(AffDriver { machine, backlog, fresh, wait }, request);
                }
                continue;
            },
            None => {},
        }
        let pending: bool = match &machine.step {
            AffStep::Pending { .. } => true,
            _ => false,
        };
        if pending {
            if events.len() > 0 {
                backlog = take_events(events);
                continue;
            }
            return AffPause::Suspended(machine);
        }
        let mut step: AffStep<H> = AffStep::Result(Ok(AffValue::Unit));
        std::mem::swap(&mut machine.step, &mut step);
        fresh = true;
        match step {
            AffStep::Node(node) => {
                let request: Option<AffRequest<H>> = machine.instruction(node);
                if let Some(request) = request {
                    let wait: AffWait = request_wait(&request);
                    return AffPause::Ask(AffDriver { machine, backlog, fresh, wait }, request);
                }
                proof {
                    lemma_instruction_lighter(here.machine);
                }
            },
            AffStep::Result(result) => {
                match machine.frames.pop() {
                    Some(frame) => {
                        assert(here.machine.frames.drop_last().push(here.machine.frames.last())
                            =~= here.machine.frames);
                        let request: Option<AffRequest<H>> = machine.unwind(frame, result);
                        if let Some(request) = request {
                            let wait: AffWait = request_wait(&request);
                            return AffPause::Ask(
                                AffDriver { machine, backlog, fresh, wait },
                                request,
                            );
                        }
                        proof {
                            lemma_unwind_lighter(here.machine, result);
                        }
                    },
                    None => {
                        return AffPause::Finished(
                            match machine.interrupt {
                                Some(error) => Err(error),
                                None => result,
                            },
                        );
                    },
                }
            },
            AffStep::Pending { .. } => {},
        }
    }
}

impl<H> AffDriver<H> {
    /// Takes in the reply to the request that was made, and runs on.
    pub fn resume(self, reply: AffReply<H>, events: &mut VecDeque<AffEvent<H>>) -> (pause: AffPause<H>)
        requires
            self@.wf(),
            reply_fits(self.wait, reply),
        ensures
            pause.turn(final(events)@) == self@.drive(old(events)@).resumed(self.wait, reply),
            pause.wf(),
            pause is Suspended ==> final(events)@.len() == 0,
    {
        let mut machine: AffMachine<H> = self.machine;
        let fresh: bool = match self.wait {
            AffWait::Undo => false,
            _ => true,
        };
        let mut yields: bool = false;
        match (self.wait, reply) {
            (_, AffReply::Outcome(result)) => {
                machine.step = AffStep::Result(result);
            },
            (_, AffReply::Next(Ok(value))) => {
                machine.step = AffStep::Node(aff_node(&value));
            },
            (_, AffReply::Next(Err(error))) => {
                machine.step = AffStep::Result(Err(error));
            },
            (AffWait::Built(tick), AffReply::Built(Ok(canceler))) => {
                machine.step = AffStep::Pending { tick, cancel: AffCancel::Foreign(canceler) };
            },
            (AffWait::Built(tick), AffReply::Built(Err(error))) => {
                machine.step = AffStep::Pending { tick, cancel: AffCancel::Nothing };
                events.push_back(AffEvent::Resolve(tick, Err(error)));
            },
            (AffWait::Registered { tick, yields: hand_over }, AffReply::Registered(cancel)) => {
                machine.step = AffStep::Pending { tick, cancel };
                yields = hand_over;
            },
            _ => {},
        }
        if yields {
            AffPause::Yielded(machine)
        } else {
            aff_run(machine, self.backlog, fresh, events)
        }
    }
}

} // verus!
