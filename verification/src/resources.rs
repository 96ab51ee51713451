//! Every resource that a bracket acquires is let go of exactly once.
use crate::driver::{reply_fits, wait_of, AffReply, DriveView, TurnView};
use crate::machine::{beginning, AffEvent, AffFrame, AffRequest, AffStep, MachineView};
use crate::value::{AffConditions, AffNodeRef, AffResult, AffValue};
use vstd::prelude::*;

verus! {

/// A resource that is held, with the ways of letting go of it.
pub struct HeldView<H> {
    pub options: AffConditions<H>,
    pub resource: AffValue<H>,
}

/// The resources that the frames of a stack hold, the oldest one first.
pub open spec fn held<H>(frames: Seq<AffFrame<H>>) -> Seq<HeldView<H>>
    decreases frames.len(),
{
    if frames.len() == 0 {
        seq![]
    } else {
        let below = held(frames.drop_last());
        match frames.last() {
            AffFrame::Release { options, resource, .. } => below.push(
                HeldView { options, resource },
            ),
            _ => below,
        }
    }
}

/// What happens to a resource.
pub enum Mark<H> {
    Acquired(HeldView<H>),
    /// The program is asked to let go of the resource in this way.
    Finalized { handler: AffValue<H>, resource: AffValue<H> },
}

/// Whether `handler` is one of the ways of letting go of `top`.
pub open spec fn lets_go<H>(top: HeldView<H>, handler: AffValue<H>, resource: AffValue<H>) -> bool {
    &&& resource == top.resource
    &&& handler == top.options.killed || handler == top.options.failed || handler
        == top.options.completed
}

/// The resources that are held after all these marks, if each of them makes
/// sense: only what is held is let go of, and the newest first.
pub open spec fn replay<H>(stack: Seq<HeldView<H>>, marks: Seq<Mark<H>>) -> Option<Seq<HeldView<H>>>
    decreases marks.len(),
{
    if marks.len() == 0 {
        Some(stack)
    } else {
        match replay(stack, marks.drop_last()) {
            None => None,
            Some(before) => match marks.last() {
                Mark::Acquired(resource) => Some(before.push(resource)),
                Mark::Finalized { handler, resource } => if before.len() > 0 && lets_go(
                    before.last(),
                    handler,
                    resource,
                ) {
                    Some(before.drop_last())
                } else {
                    None
                },
            },
        }
    }
}

/// The mark that a frame leaves when it gets a result.
pub open spec fn unwind_mark<H>(
    machine: MachineView<H>,
    frame: AffFrame<H>,
    result: AffResult<H>,
) -> Seq<Mark<H>> {
    match (frame, result) {
        (AffFrame::Acquire { options, .. }, Ok(resource)) => seq![
            Mark::Acquired(HeldView { options, resource }),
        ],
        _ => match machine.unwind(frame, result).1 {
            Some(AffRequest::Finalize { handler, resource, .. }) => seq![
                Mark::Finalized { handler, resource },
            ],
            _ => seq![],
        },
    }
}

impl<H> DriveView<H> {
    /// What happens to resources until the run ends.
    pub open spec fn marks(self) -> Seq<Mark<H>>
        decreases
                2 * self.events.len() + self.backlog.len(),
                crate::driver::machine_weight(self.machine),
                self.fresh as int,
    {
        if self.fresh {
            DriveView {
                backlog: self.backlog + self.events,
                events: Seq::empty(),
                fresh: false,
                ..self
            }.marks()
        } else if self.backlog.len() > 0 {
            let (machine, request) = self.machine.deliver(self.backlog[0]);
            let next = DriveView { machine, backlog: self.backlog.skip(1), ..self };
            match request {
                Some(_) => seq![],
                None => next.marks(),
            }
        } else {
            match self.machine.step {
                AffStep::Pending { .. } => if self.events.len() > 0 {
                    DriveView { backlog: self.events, events: Seq::empty(), ..self }.marks()
                } else {
                    seq![]
                },
                AffStep::Node(node) => {
                    let (machine, request) = self.machine.instruction(node.node);
                    let next = DriveView { machine, fresh: true, ..self };
                    match request {
                        Some(_) => seq![],
                        None => {
                            proof {
                                crate::driver::lemma_instruction_lighter(self.machine);
                            }
                            next.marks()
                        },
                    }
                },
                AffStep::Result(result) => if self.machine.frames.len() == 0 {
                    seq![]
                } else {
                    let frame = self.machine.frames.last();
                    let here = unwind_mark(self.machine.popped(), frame, result);
                    let (machine, request) = self.machine.popped().unwind(frame, result);
                    let next = DriveView { machine, fresh: true, ..self };
                    match request {
                        Some(_) => here,
                        None => {
                            proof {
                                crate::driver::lemma_unwind_lighter(self.machine, result);
                            }
                            here + next.marks()
                        },
                    }
                },
            }
        }
    }
}

/// The stack of a machine where a run has ended. A finished one has none left.
pub open spec fn frames_left<H>(turn: TurnView<H>) -> Seq<AffFrame<H>> {
    match turn {
        TurnView::Ask { drive, .. } => drive.machine.frames,
        TurnView::Suspended(machine) => machine.frames,
        TurnView::Yielded(machine, _) => machine.frames,
        TurnView::Finished(..) => seq![],
    }
}

proof fn lemma_held_push<H>(frames: Seq<AffFrame<H>>, frame: AffFrame<H>)
    ensures
        held(frames.push(frame)) == match frame {
            AffFrame::Release { options, resource, .. } => held(frames).push(
                HeldView { options, resource },
            ),
            _ => held(frames),
        },
{
    assert(frames.push(frame).drop_last() =~= frames);
}

/// An event does not let go of any resource.
pub proof fn law_events_keep_resources<H>(machine: MachineView<H>, event: AffEvent<H>)
    ensures
        held(machine.deliver(event).0.frames) == held(machine.frames),
        !(machine.deliver(event).1 matches Some(AffRequest::Finalize { .. })),
{
    lemma_held_push(machine.frames, AffFrame::Finalized(Ok(AffValue::Unit)));
}

/// Beginning a description neither acquires a resource nor lets go of one.
pub proof fn law_instructions_keep_resources<H>(machine: MachineView<H>, node: AffNodeRef<H>)
    ensures
        held(machine.instruction(node.node).0.frames) == held(machine.frames),
        !(machine.instruction(node.node).1 matches Some(AffRequest::Finalize { .. })),
{
    let next = beginning(machine, node).0;
    if next.frames.len() > machine.frames.len() {
        lemma_held_push(machine.frames, next.frames.last());
        assert(next.frames =~= machine.frames.push(next.frames.last()));
    }
}

/// A resource is acquired exactly when the acquiring computation of a bracket
/// has ended well, and the program is asked to let go of it exactly when the
/// result of its use comes in.
pub proof fn law_unwinding_marks_resources<H>(
    machine: MachineView<H>,
    frame: AffFrame<H>,
    result: AffResult<H>,
)
    ensures
        replay(held(machine.frames.push(frame)), unwind_mark(machine, frame, result)) == Some(
            held(machine.unwind(frame, result).0.frames),
        ),
        machine.unwind(frame, result).1 matches Some(AffRequest::Finalize { .. })
            <==> frame is Release,
{
    let next = machine.unwind(frame, result).0;
    let marks = unwind_mark(machine, frame, result);
    lemma_held_push(machine.frames, frame);
    if next.frames.len() > machine.frames.len() {
        lemma_held_push(machine.frames, next.frames.last());
        assert(next.frames =~= machine.frames.push(next.frames.last()));
    }
    reveal_with_fuel(replay, 2);
    if marks.len() > 0 {
        assert(marks.drop_last() =~= seq![]);
    }
    if frame is Release {
        assert(held(machine.frames.push(frame)).drop_last() =~= held(machine.frames));
    }
}

proof fn lemma_replay_concat<H>(stack: Seq<HeldView<H>>, a: Seq<Mark<H>>, b: Seq<Mark<H>>)
    ensures
        replay(stack, a + b) == match replay(stack, a) {
            Some(between) => replay(between, b),
            None => None,
        },
    decreases b.len(),
{
    if b.len() == 0 {
        assert(a + b =~= a);
    } else {
        assert((a + b).drop_last() =~= a + b.drop_last());
        lemma_replay_concat(stack, a, b.drop_last());
    }
}

/// A run of a machine accounts for every resource: what was held before, with
/// what happened during the run, is what is held after it.
pub proof fn law_run_accounts_for_resources<H>(drive: DriveView<H>)
    ensures
        replay(held(drive.machine.frames), drive.marks()) == Some(held(frames_left(drive.run()))),
    decreases
            2 * drive.events.len() + drive.backlog.len(),
            crate::driver::machine_weight(drive.machine),
            drive.fresh as int,
{
    let stack = held(drive.machine.frames);
    if drive.fresh {
        law_run_accounts_for_resources(
            DriveView {
                backlog: drive.backlog + drive.events,
                events: Seq::empty(),
                fresh: false,
                ..drive
            },
        );
    } else if drive.backlog.len() > 0 {
        let (machine, request) = drive.machine.deliver(drive.backlog[0]);
        let next = DriveView { machine, backlog: drive.backlog.skip(1), ..drive };
        law_events_keep_resources(drive.machine, drive.backlog[0]);
        if request is None {
            law_run_accounts_for_resources(next);
        }
    } else {
        match drive.machine.step {
            AffStep::Pending { .. } => {
                if drive.events.len() > 0 {
                    law_run_accounts_for_resources(
                        DriveView { backlog: drive.events, events: Seq::empty(), ..drive },
                    );
                }
            },
            AffStep::Node(node) => {
                let (machine, request) = beginning(drive.machine, node);
                law_instructions_keep_resources(drive.machine, node);
                if request is None {
                    crate::driver::lemma_instruction_lighter(drive.machine);
                    law_run_accounts_for_resources(
                        DriveView { machine, fresh: true, ..drive },
                    );
                }
            },
            AffStep::Result(result) => {
                if drive.machine.frames.len() > 0 {
                    let frame = drive.machine.frames.last();
                    let popped = drive.machine.popped();
                    let (machine, request) = popped.unwind(frame, result);
                    let next = DriveView { machine, fresh: true, ..drive };
                    let here = unwind_mark(popped, frame, result);
                    assert(popped.frames.push(frame) =~= drive.machine.frames);
                    law_unwinding_marks_resources(popped, frame, result);
                    if request is None {
                        crate::driver::lemma_unwind_lighter(drive.machine, result);
                        law_run_accounts_for_resources(next);
                        lemma_replay_concat(stack, here, next.marks());
                    }
                } else {
                    assert(drive.machine.frames =~= seq![]);
                }
            },
        }
    }
}

/// What comes to a machine from outside after a run has ended.
pub enum LifeInput<H> {
    /// The reply to the request that was made, and events that came meanwhile.
    Reply(AffReply<H>, Seq<AffEvent<H>>),
    /// Events that wake a machine which waits.
    Wake(Seq<AffEvent<H>>),
}

/// Whether the input is one that can come where this run has ended.
pub open spec fn input_fits<H>(turn: TurnView<H>, input: LifeInput<H>) -> bool {
    match (turn, input) {
        (TurnView::Ask { request, .. }, LifeInput::Reply(reply, _)) => reply_fits(
            wait_of(request),
            reply,
        ),
        (TurnView::Suspended(_), LifeInput::Wake(_)) => true,
        (TurnView::Yielded(..), LifeInput::Wake(_)) => true,
        _ => false,
    }
}

/// Where the machine goes on, and whether it runs at once.
pub open spec fn going_on<H>(turn: TurnView<H>, input: LifeInput<H>) -> DriveView<H> {
    match (turn, input) {
        (TurnView::Ask { drive, request }, LifeInput::Reply(reply, events)) => (DriveView {
            events: drive.events + events,
            ..drive
        }).answered(wait_of(request), reply),
        (TurnView::Suspended(machine), LifeInput::Wake(events)) => DriveView {
            machine,
            backlog: Seq::empty(),
            fresh: true,
            events,
        },
        (TurnView::Yielded(machine, left), LifeInput::Wake(events)) => DriveView {
            machine,
            backlog: Seq::empty(),
            fresh: true,
            events: left + events,
        },
        _ => arbitrary(),
    }
}

/// Whether the machine gives back its thread before it goes on.
pub open spec fn gives_way<H>(turn: TurnView<H>, input: LifeInput<H>) -> bool {
    match (turn, input) {
        (
            TurnView::Ask { request: AffRequest::Native { yields, .. }, .. },
            LifeInput::Reply(..),
        ) => yields,
        _ => false,
    }
}

/// Where the next run ends.
pub open spec fn next_turn<H>(turn: TurnView<H>, input: LifeInput<H>) -> TurnView<H> {
    match (turn, input) {
        (TurnView::Ask { drive, request }, LifeInput::Reply(reply, events)) => (DriveView {
            events: drive.events + events,
            ..drive
        }).resumed(wait_of(request), reply),
        _ => going_on(turn, input).run(),
    }
}

pub open spec fn next_marks<H>(turn: TurnView<H>, input: LifeInput<H>) -> Seq<Mark<H>> {
    if gives_way(turn, input) {
        seq![]
    } else {
        going_on(turn, input).marks()
    }
}

/// Whether all these inputs can come one after another.
pub open spec fn can_live<H>(birth: TurnView<H>, inputs: Seq<LifeInput<H>>) -> bool
    decreases inputs.len(),
{
    inputs.len() == 0 || {
        &&& can_live(birth, inputs.drop_last())
        &&& input_fits(life(birth, inputs.drop_last()), inputs.last())
    }
}

/// Where a machine stands after all these inputs.
pub open spec fn life<H>(birth: TurnView<H>, inputs: Seq<LifeInput<H>>) -> TurnView<H>
    decreases inputs.len(),
{
    if inputs.len() == 0 {
        birth
    } else {
        next_turn(life(birth, inputs.drop_last()), inputs.last())
    }
}

/// What happens to resources on the way.
pub open spec fn life_marks<H>(birth: TurnView<H>, inputs: Seq<LifeInput<H>>) -> Seq<Mark<H>>
    decreases inputs.len(),
{
    if inputs.len() == 0 {
        seq![]
    } else {
        life_marks(birth, inputs.drop_last()) + next_marks(
            life(birth, inputs.drop_last()),
            inputs.last(),
        )
    }
}

proof fn lemma_next_accounts<H>(turn: TurnView<H>, input: LifeInput<H>)
    requires
        input_fits(turn, input),
    ensures
        replay(held(frames_left(turn)), next_marks(turn, input)) == Some(
            held(frames_left(next_turn(turn, input))),
        ),
{
    let drive = going_on(turn, input);
    assert(drive.machine.frames == frames_left(turn));
    if !gives_way(turn, input) {
        law_run_accounts_for_resources(drive);
    }
}

/// Whatever comes to a fiber, and however often it is interrupted: as long as
/// it lives, the resources that it has acquired and not let go of are those on
/// its stack.
pub proof fn law_life_accounts_for_resources<H>(drive: DriveView<H>, inputs: Seq<LifeInput<H>>)
    requires
        can_live(drive.run(), inputs),
    ensures
        replay(held(drive.machine.frames), drive.marks() + life_marks(drive.run(), inputs)) == Some(
            held(frames_left(life(drive.run(), inputs))),
        ),
    decreases inputs.len(),
{
    let stack = held(drive.machine.frames);
    if inputs.len() == 0 {
        law_run_accounts_for_resources(drive);
        assert(drive.marks() + life_marks(drive.run(), inputs) =~= drive.marks());
    } else {
        let before = inputs.drop_last();
        law_life_accounts_for_resources(drive, before);
        lemma_next_accounts(life(drive.run(), before), inputs.last());
        let first = drive.marks() + life_marks(drive.run(), before);
        let last = next_marks(life(drive.run(), before), inputs.last());
        lemma_replay_concat(stack, first, last);
        assert(first + last =~= drive.marks() + life_marks(drive.run(), inputs));
    }
}

/// A fiber that has ended has let go of every resource that it acquired, of
/// each exactly once, and of nothing else: its life leads from holding nothing
/// to holding nothing.
pub proof fn law_every_resource_is_finalized<H>(
    node: AffNodeRef<H>,
    events: Seq<AffEvent<H>>,
    inputs: Seq<LifeInput<H>>,
)
    requires
        ({
            let drive = DriveView {
                machine: MachineView::start(node),
                backlog: Seq::empty(),
                fresh: true,
                events,
            };
            &&& can_live(drive.run(), inputs)
            &&& life(drive.run(), inputs) is Finished
        }),
    ensures
        ({
            let drive = DriveView {
                machine: MachineView::start(node),
                backlog: Seq::empty(),
                fresh: true,
                events,
            };
            replay(seq![], drive.marks() + life_marks(drive.run(), inputs)) == Some(
                Seq::<HeldView<H>>::empty(),
            )
        }),
{
    let drive = DriveView {
        machine: MachineView::start(node),
        backlog: Seq::empty(),
        fresh: true,
        events,
    };
    law_life_accounts_for_resources(drive, inputs);
    assert(held(drive.machine.frames) =~= seq![]);
}

} // verus!
