//! Every wait of a fiber is resolved once: over the whole life of a fiber its
//! ticks only go forward, and a resolution for a tick that has passed changes
//! nothing.
use crate::driver::{machine_weight, wait_of, AffReply, AffWait, DriveView, TurnView};
use crate::machine::{beginning, AffEvent, AffStep, MachineView};
use crate::resources::{can_live, gives_way, going_on, input_fits, life, next_turn, LifeInput};
use crate::value::{AffNodeRef, AffResult, AffValue};
use vstd::prelude::*;

verus! {

/// Whether a suspension belongs to the current tick.
pub open spec fn waits_in_time<H>(machine: MachineView<H>) -> bool {
    machine.step matches AffStep::Pending { tick, .. } ==> tick == machine.tick
}

/// How many ticks an event lets pass: one if it ends what the machine is doing.
pub open spec fn event_ticks<H>(machine: MachineView<H>, event: AffEvent<H>) -> nat {
    match event {
        AffEvent::Resolve(tick, _) => if machine.step matches AffStep::Pending { tick: waiting, .. }
            && waiting == tick {
            1
        } else {
            0
        },
        AffEvent::Kill(_) => if machine.mask == 0 {
            1
        } else {
            0
        },
    }
}

impl<H> DriveView<H> {
    /// How many ticks pass until the run ends.
    pub open spec fn ticks(self) -> nat
        decreases
                2 * self.events.len() + self.backlog.len(),
                machine_weight(self.machine),
                self.fresh as int,
    {
        if self.fresh {
            DriveView {
                backlog: self.backlog + self.events,
                events: Seq::empty(),
                fresh: false,
                ..self
            }.ticks()
        } else if self.backlog.len() > 0 {
            let (machine, request) = self.machine.deliver(self.backlog[0]);
            let next = DriveView { machine, backlog: self.backlog.skip(1), ..self };
            event_ticks(self.machine, self.backlog[0]) + match request {
                Some(_) => 0,
                None => next.ticks(),
            }
        } else {
            match self.machine.step {
                AffStep::Pending { .. } => if self.events.len() > 0 {
                    DriveView { backlog: self.events, events: Seq::empty(), ..self }.ticks()
                } else {
                    0
                },
                AffStep::Node(node) => {
                    let (machine, request) = self.machine.instruction(node.node);
                    let next = DriveView { machine, fresh: true, ..self };
                    match request {
                        Some(_) => 0,
                        None => {
                            proof {
                                crate::driver::lemma_instruction_lighter(self.machine);
                            }
                            next.ticks()
                        },
                    }
                },
                AffStep::Result(result) => if self.machine.frames.len() == 0 {
                    0
                } else {
                    let (machine, request) = self.machine.popped().unwind(
                        self.machine.frames.last(),
                        result,
                    );
                    let next = DriveView { machine, fresh: true, ..self };
                    match request {
                        Some(_) => 0,
                        None => {
                            proof {
                                crate::driver::lemma_unwind_lighter(self.machine, result);
                            }
                            next.ticks()
                        },
                    }
                },
            }
        }
    }

    /// The machine on the move without the resolutions for this tick.
    pub open spec fn sans(self, tick: usize) -> DriveView<H> {
        DriveView {
            backlog: sans(self.backlog, tick),
            events: sans(self.events, tick),
            ..self
        }
    }
}

/// These events without the resolutions for this tick.
pub open spec fn sans<H>(events: Seq<AffEvent<H>>, tick: usize) -> Seq<AffEvent<H>>
    decreases events.len(),
{
    if events.len() == 0 {
        seq![]
    } else {
        let rest = sans(events.skip(1), tick);
        if is_resolution(events[0], tick) {
            rest
        } else {
            seq![events[0]] + rest
        }
    }
}

/// Whether an event resolves the wait that was registered at this tick.
pub open spec fn is_resolution<H>(event: AffEvent<H>, tick: usize) -> bool {
    event matches AffEvent::Resolve(resolved, _) && resolved == tick
}

proof fn lemma_sans_concat<H>(a: Seq<AffEvent<H>>, b: Seq<AffEvent<H>>, tick: usize)
    ensures
        sans(a + b, tick) == sans(a, tick) + sans(b, tick),
    decreases a.len(),
{
    if a.len() == 0 {
        assert(a + b =~= b);
        assert(sans(a, tick) + sans(b, tick) =~= sans(b, tick));
    } else {
        assert((a + b).skip(1) =~= a.skip(1) + b);
        lemma_sans_concat(a.skip(1), b, tick);
        assert(sans(a + b, tick) =~= sans(a, tick) + sans(b, tick));
    }
}

/// The place where a run has ended, without the resolutions for this tick that
/// have not been delivered yet.
pub open spec fn turn_sans<H>(turn: TurnView<H>, tick: usize) -> TurnView<H> {
    match turn {
        TurnView::Ask { drive, request } => TurnView::Ask { drive: drive.sans(tick), request },
        TurnView::Suspended(machine) => TurnView::Suspended(machine),
        TurnView::Yielded(machine, events) => TurnView::Yielded(machine, sans(events, tick)),
        TurnView::Finished(result, events) => TurnView::Finished(result, sans(events, tick)),
    }
}

pub open spec fn input_sans<H>(input: LifeInput<H>, tick: usize) -> LifeInput<H> {
    match input {
        LifeInput::Reply(reply, events) => LifeInput::Reply(reply, sans(events, tick)),
        LifeInput::Wake(events) => LifeInput::Wake(sans(events, tick)),
    }
}

pub open spec fn inputs_sans<H>(inputs: Seq<LifeInput<H>>, tick: usize) -> Seq<LifeInput<H>> {
    inputs.map_values(|input: LifeInput<H>| input_sans(input, tick))
}

/// The tick at which a run has ended. A finished machine has none.
pub open spec fn tick_left<H>(turn: TurnView<H>) -> Option<usize> {
    match turn {
        TurnView::Ask { drive, .. } => Some(drive.machine.tick),
        TurnView::Suspended(machine) => Some(machine.tick),
        TurnView::Yielded(machine, _) => Some(machine.tick),
        TurnView::Finished(..) => None,
    }
}

/// Whether what the machine waits for, where a run has ended, belongs to the
/// current tick.
pub open spec fn turn_in_time<H>(turn: TurnView<H>) -> bool {
    match turn {
        TurnView::Ask { drive, request } => {
            &&& waits_in_time(drive.machine)
            &&& wait_of(request) matches AffWait::Built(tick) ==> tick == drive.machine.tick
            &&& wait_of(request) matches AffWait::Registered { tick, .. } ==> tick
                == drive.machine.tick
        },
        TurnView::Suspended(machine) => waits_in_time(machine),
        TurnView::Yielded(machine, _) => waits_in_time(machine),
        TurnView::Finished(..) => true,
    }
}

/// An event that lets a tick pass takes the machine to the next tick, and any
/// other one leaves it at its tick.
pub proof fn law_events_let_ticks_pass<H>(machine: MachineView<H>, event: AffEvent<H>)
    requires
        waits_in_time(machine),
        machine.tick + event_ticks(machine, event) <= usize::MAX,
    ensures
        machine.deliver(event).0.tick == machine.tick + event_ticks(machine, event),
        waits_in_time(machine.deliver(event).0),
        machine.deliver(event).1 is Some ==> waits_in_time(machine.deliver(event).0)
            && wait_of(machine.deliver(event).1->0) is Undo,
{
}

/// The ticks of a machine only go forward: a run takes it on by as many as pass.
pub proof fn law_run_goes_forward<H>(drive: DriveView<H>)
    requires
        waits_in_time(drive.machine),
        drive.machine.tick + drive.ticks() <= usize::MAX,
    ensures
        turn_in_time(drive.run()),
        tick_left(drive.run()) matches Some(tick) ==> tick == drive.machine.tick + drive.ticks(),
    decreases
            2 * drive.events.len() + drive.backlog.len(),
            machine_weight(drive.machine),
            drive.fresh as int,
{
    if drive.fresh {
        law_run_goes_forward(
            DriveView {
                backlog: drive.backlog + drive.events,
                events: Seq::empty(),
                fresh: false,
                ..drive
            },
        );
    } else if drive.backlog.len() > 0 {
        let (machine, request) = drive.machine.deliver(drive.backlog[0]);
        law_events_let_ticks_pass(drive.machine, drive.backlog[0]);
        if request is None {
            law_run_goes_forward(DriveView { machine, backlog: drive.backlog.skip(1), ..drive });
        }
    } else {
        match drive.machine.step {
            AffStep::Pending { .. } => {
                if drive.events.len() > 0 {
                    law_run_goes_forward(
                        DriveView { backlog: drive.events, events: Seq::empty(), ..drive },
                    );
                }
            },
            AffStep::Node(node) => {
                let (machine, request) = beginning(drive.machine, node);
                if request is None {
                    crate::driver::lemma_instruction_lighter(drive.machine);
                    law_run_goes_forward(DriveView { machine, fresh: true, ..drive });
                }
            },
            AffStep::Result(result) => {
                if drive.machine.frames.len() > 0 {
                    let frame = drive.machine.frames.last();
                    let (machine, request) = drive.machine.popped().unwind(frame, result);
                    if request is None {
                        crate::driver::lemma_unwind_lighter(drive.machine, result);
                        law_run_goes_forward(DriveView { machine, fresh: true, ..drive });
                    }
                }
            },
        }
    }
}

/// A run is not changed by resolutions for a tick that has passed, wherever they
/// stand among the events: it ends where it would have ended without them.
pub proof fn law_run_ignores_old_resolutions<H>(drive: DriveView<H>, old_tick: usize)
    requires
        waits_in_time(drive.machine),
        old_tick < drive.machine.tick,
        drive.machine.tick + drive.ticks() <= usize::MAX,
    ensures
        drive.sans(old_tick).run() == turn_sans(drive.run(), old_tick),
        drive.sans(old_tick).ticks() == drive.ticks(),
    decreases
            2 * drive.events.len() + drive.backlog.len(),
            machine_weight(drive.machine),
            drive.fresh as int,
{
    let less = drive.sans(old_tick);
    if drive.fresh {
        let next = DriveView {
            backlog: drive.backlog + drive.events,
            events: Seq::empty(),
            fresh: false,
            ..drive
        };
        lemma_sans_concat(drive.backlog, drive.events, old_tick);
        law_run_ignores_old_resolutions(next, old_tick);
        assert(next.sans(old_tick) == (DriveView {
            backlog: less.backlog + less.events,
            events: Seq::empty(),
            fresh: false,
            ..less
        }));
    } else if drive.backlog.len() > 0 {
        let event = drive.backlog[0];
        let (machine, request) = drive.machine.deliver(event);
        let next = DriveView { machine, backlog: drive.backlog.skip(1), ..drive };
        law_events_let_ticks_pass(drive.machine, event);
        if is_resolution(event, old_tick) {
            assert(next.sans(old_tick) == less);
            law_run_ignores_old_resolutions(next, old_tick);
        } else {
            assert(less.backlog[0] == event);
            assert(less.backlog.skip(1) =~= sans(drive.backlog.skip(1), old_tick));
            if request is None {
                law_run_ignores_old_resolutions(next, old_tick);
            }
        }
    } else {
        assert(less.backlog.len() == 0);
        match drive.machine.step {
            AffStep::Pending { .. } => {
                if drive.events.len() > 0 {
                    let next = DriveView { backlog: drive.events, events: Seq::empty(), ..drive };
                    law_run_ignores_old_resolutions(next, old_tick);
                    if less.events.len() > 0 {
                        assert(next.sans(old_tick) == (DriveView {
                            backlog: less.events,
                            events: Seq::empty(),
                            ..less
                        }));
                    } else {
                        assert(next.sans(old_tick).backlog.len() == 0);
                        assert(next.sans(old_tick).events.len() == 0);
                    }
                }
            },
            AffStep::Node(node) => {
                let (machine, request) = beginning(drive.machine, node);
                if request is None {
                    crate::driver::lemma_instruction_lighter(drive.machine);
                    law_run_ignores_old_resolutions(
                        DriveView { machine, fresh: true, ..drive },
                        old_tick,
                    );
                }
            },
            AffStep::Result(result) => {
                if drive.machine.frames.len() > 0 {
                    let frame = drive.machine.frames.last();
                    let (machine, request) = drive.machine.popped().unwind(frame, result);
                    if request is None {
                        crate::driver::lemma_unwind_lighter(drive.machine, result);
                        law_run_ignores_old_resolutions(
                            DriveView { machine, fresh: true, ..drive },
                            old_tick,
                        );
                    }
                }
            },
        }
    }
}

/// How many ticks pass in the run that follows an input.
pub open spec fn next_ticks<H>(turn: TurnView<H>, input: LifeInput<H>) -> nat {
    if gives_way(turn, input) {
        0
    } else {
        going_on(turn, input).ticks()
    }
}

/// How many ticks pass while all these inputs come.
pub open spec fn life_ticks<H>(birth: TurnView<H>, inputs: Seq<LifeInput<H>>) -> nat
    decreases inputs.len(),
{
    if inputs.len() == 0 {
        0
    } else {
        life_ticks(birth, inputs.drop_last()) + next_ticks(
            life(birth, inputs.drop_last()),
            inputs.last(),
        )
    }
}

proof fn lemma_next_goes_forward<H>(turn: TurnView<H>, input: LifeInput<H>)
    requires
        turn_in_time(turn),
        input_fits(turn, input),
        tick_left(turn)->0 + next_ticks(turn, input) <= usize::MAX,
    ensures
        turn_in_time(next_turn(turn, input)),
        tick_left(next_turn(turn, input)) matches Some(tick) ==> tick == tick_left(turn)->0
            + next_ticks(turn, input),
{
    let drive = going_on(turn, input);
    assert(drive.machine.tick == tick_left(turn)->0);
    assert(waits_in_time(drive.machine));
    if !gives_way(turn, input) {
        law_run_goes_forward(drive);
    }
}

/// Over the whole life of a fiber, until its ticks begin anew, the tick never
/// goes back: it is the first tick and as many more as have passed.
pub proof fn law_ticks_never_go_back<H>(birth: TurnView<H>, inputs: Seq<LifeInput<H>>)
    requires
        turn_in_time(birth),
        !(birth is Finished),
        can_live(birth, inputs),
        tick_left(birth)->0 + life_ticks(birth, inputs) <= usize::MAX,
    ensures
        turn_in_time(life(birth, inputs)),
        tick_left(life(birth, inputs)) matches Some(tick) ==> tick == tick_left(birth)->0
            + life_ticks(birth, inputs),
    decreases inputs.len(),
{
    if inputs.len() > 0 {
        let before = inputs.drop_last();
        law_ticks_never_go_back(birth, before);
        lemma_next_goes_forward(life(birth, before), inputs.last());
    }
}

proof fn lemma_next_ignores<H>(turn: TurnView<H>, input: LifeInput<H>, old_tick: usize)
    requires
        turn_in_time(turn),
        input_fits(turn, input),
        old_tick < tick_left(turn)->0,
        tick_left(turn)->0 + next_ticks(turn, input) <= usize::MAX,
    ensures
        input_fits(turn_sans(turn, old_tick), input_sans(input, old_tick)),
        next_turn(turn_sans(turn, old_tick), input_sans(input, old_tick)) == turn_sans(
            next_turn(turn, input),
            old_tick,
        ),
{
    let less_turn = turn_sans(turn, old_tick);
    let less_input = input_sans(input, old_tick);
    let drive = going_on(turn, input);
    match (turn, input) {
        (TurnView::Ask { drive: asked, request }, LifeInput::Reply(reply, events)) => {
            lemma_sans_concat(asked.events, events, old_tick);
            if let (AffWait::Built(tick), AffReply::Built(Err(error))) = (wait_of(request), reply) {
                let late = seq![AffEvent::Resolve(tick, Err(error))];
                let all = asked.events + events;
                lemma_sans_concat(all, late, old_tick);
                assert(late.skip(1) =~= seq![]);
                assert(sans(late.skip(1), old_tick) =~= seq![]);
                assert(!is_resolution(late[0], old_tick));
                assert(sans(late, old_tick) =~= late);
                assert(all + late =~= all.push(late[0]));
                assert(sans(all, old_tick) + late =~= sans(all, old_tick).push(late[0]));
            }
        },
        (TurnView::Yielded(_, left), LifeInput::Wake(events)) => {
            lemma_sans_concat(left, events, old_tick);
        },
        _ => {},
    }
    assert(going_on(less_turn, less_input) =~= drive.sans(old_tick));
    if !gives_way(turn, input) {
        law_run_ignores_old_resolutions(drive, old_tick);
    }
}

/// No resolution of a wait that is over ever counts: for the rest of the life of
/// the fiber, until its ticks begin anew, it is the same whether resolutions for
/// a tick that has passed come or not, and the fiber ends the same way.
pub proof fn law_old_resolutions_never_count<H>(
    birth: TurnView<H>,
    inputs: Seq<LifeInput<H>>,
    old_tick: usize,
)
    requires
        turn_in_time(birth),
        !(birth is Finished),
        can_live(birth, inputs),
        old_tick < tick_left(birth)->0,
        tick_left(birth)->0 + life_ticks(birth, inputs) <= usize::MAX,
    ensures
        can_live(turn_sans(birth, old_tick), inputs_sans(inputs, old_tick)),
        life(turn_sans(birth, old_tick), inputs_sans(inputs, old_tick)) == turn_sans(
            life(birth, inputs),
            old_tick,
        ),
    decreases inputs.len(),
{
    if inputs.len() > 0 {
        let before = inputs.drop_last();
        assert(inputs_sans(inputs, old_tick).drop_last() =~= inputs_sans(before, old_tick));
        law_old_resolutions_never_count(birth, before, old_tick);
        law_ticks_never_go_back(birth, before);
        lemma_next_ignores(life(birth, before), inputs.last(), old_tick);
    }
}

/// At most the first resolution of a wait counts: it is the result of the wait,
/// and from then on, for the rest of the life of the fiber, it is the same
/// whether further resolutions of this wait come or not.
pub proof fn law_only_the_first_resolution_counts<H>(
    drive: DriveView<H>,
    first: AffResult<H>,
    inputs: Seq<LifeInput<H>>,
)
    requires
        waits_in_time(drive.machine),
        drive.machine.step is Pending,
        !drive.fresh,
        drive.backlog.len() > 0,
        drive.backlog[0] == AffEvent::Resolve(drive.machine.tick, first),
        can_live(drive.run(), inputs),
        drive.machine.tick + drive.ticks() + life_ticks(drive.run(), inputs) <= usize::MAX,
    ensures
        ({
            let tick = drive.machine.tick;
            let resolved = DriveView {
                machine: MachineView {
                    step: AffStep::Result(first),
                    tick: (tick + 1) as usize,
                    ..drive.machine
                },
                backlog: drive.backlog.skip(1),
                ..drive
            };
            &&& drive.run() == resolved.run()
            &&& life(resolved.sans(tick).run(), inputs_sans(inputs, tick)) == turn_sans(
                life(drive.run(), inputs),
                tick,
            )
        }),
{
    let tick = drive.machine.tick;
    law_events_let_ticks_pass(drive.machine, drive.backlog[0]);
    let resolved = DriveView {
        machine: drive.machine.deliver(drive.backlog[0]).0,
        backlog: drive.backlog.skip(1),
        ..drive
    };
    assert(drive.ticks() == 1 + resolved.ticks());
    law_run_ignores_old_resolutions(resolved, tick);
    law_run_goes_forward(resolved);
    lemma_rest_ignores(resolved.run(), inputs, tick);
}

/// Once a kill that nothing protects from has ended a wait, no resolution of it
/// counts for the rest of the life of the fiber.
pub proof fn law_no_resolution_counts_after_a_kill<H>(
    drive: DriveView<H>,
    error: AffValue<H>,
    inputs: Seq<LifeInput<H>>,
)
    requires
        waits_in_time(drive.machine),
        drive.machine.step is Pending,
        drive.machine.mask == 0,
        !drive.fresh,
        drive.backlog.len() > 0,
        drive.backlog[0] == AffEvent::Kill(error),
        can_live(drive.run(), inputs),
        drive.machine.tick + drive.ticks() + life_ticks(drive.run(), inputs) <= usize::MAX,
    ensures
        life(
            turn_sans(drive.run(), drive.machine.tick),
            inputs_sans(inputs, drive.machine.tick),
        ) == turn_sans(life(drive.run(), inputs), drive.machine.tick),
{
    let tick = drive.machine.tick;
    law_run_goes_forward(drive);
    law_events_let_ticks_pass(drive.machine, drive.backlog[0]);
    lemma_rest_ignores(drive.run(), inputs, tick);
}

proof fn lemma_rest_ignores<H>(turn: TurnView<H>, inputs: Seq<LifeInput<H>>, tick: usize)
    requires
        turn_in_time(turn),
        can_live(turn, inputs),
        tick_left(turn) matches Some(now) ==> tick < now && now + life_ticks(turn, inputs)
            <= usize::MAX,
    ensures
        life(turn_sans(turn, tick), inputs_sans(inputs, tick)) == turn_sans(
            life(turn, inputs),
            tick,
        ),
{
    if turn is Finished {
        lemma_finished_lives_no_more(turn, inputs);
        assert(inputs_sans(inputs, tick) =~= seq![]);
    } else {
        law_old_resolutions_never_count(turn, inputs, tick);
    }
}

proof fn lemma_finished_lives_no_more<H>(turn: TurnView<H>, inputs: Seq<LifeInput<H>>)
    requires
        turn is Finished,
        can_live(turn, inputs),
    ensures
        inputs.len() == 0,
    decreases inputs.len(),
{
    if inputs.len() > 0 {
        lemma_finished_lives_no_more(turn, inputs.drop_last());
    }
}

/// A fiber begins in time: all of this holds of every fiber from its first
/// instruction on.
pub proof fn law_fibers_begin_in_time<H>(node: AffNodeRef<H>)
    ensures
        waits_in_time(MachineView::<H>::start(node)),
        MachineView::<H>::start(node).tick == 0,
{
}

} // verus!
