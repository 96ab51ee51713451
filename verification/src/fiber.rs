//! One fiber: who starts it, who observes it, and how it ends.
use crate::driver::{
    aff_run, driver_of, is_reply_for, reply_fits, AffDriver, AffPause, AffReply, DriveView,
    DriverView, TurnView,
};
use crate::machine::{wrapping_next, AffEvent, AffMachine, AffRequest, MachineView};
use crate::ordered::{into_entries, listing, lists};
use crate::runtime::{AffRuntime, RuntimeView};
use crate::target::{AffCallback, AffNotice, AffTarget};
use crate::util::AffUtil;
use crate::value::{AffNodeRef, AffResult, AffValue};
use std::collections::{BTreeMap, VecDeque};
use vstd::prelude::*;

verus! {

pub struct AffJoin<H> {
    pub rethrow: bool,
    pub callback: AffCallback<H>,
}

pub struct AffFiber<H> {
    pub id: usize,
    pub util: AffUtil<H>,
    pub supervisor: Option<usize>,
    /// Whether the embedding program holds the handle of the fiber.
    pub owned: bool,
    pub machine: Option<AffMachine<H>>,
    /// The machine while it waits for a reply.
    pub driver: Option<AffDriver<H>>,
    pub running: bool,
    pub started: bool,
    pub events: VecDeque<AffEvent<H>>,
    pub result: Option<AffResult<H>>,
    pub joins: BTreeMap<usize, AffJoin<H>>,
    pub next_join: usize,
    /// Whether the numbers of observers have begun anew.
    pub anew: Ghost<bool>,
    pub rethrow: bool,
    /// The observers that have not been told yet that the fiber has ended.
    pub notices: VecDeque<AffNotice<H>>,
}

#[verifier::ext_equal]
pub struct FiberView<H> {
    pub id: usize,
    pub util: AffUtil<H>,
    pub supervisor: Option<usize>,
    pub owned: bool,
    pub machine: Option<MachineView<H>>,
    pub driver: Option<DriverView<H>>,
    pub running: bool,
    pub started: bool,
    pub events: Seq<AffEvent<H>>,
    pub result: Option<AffResult<H>>,
    pub joins: Map<usize, AffJoin<H>>,
    pub next_join: usize,
    pub anew: bool,
    pub rethrow: bool,
    pub notices: Seq<AffNotice<H>>,
}

impl<H> View for AffFiber<H> {
    type V = FiberView<H>;

    open spec fn view(&self) -> FiberView<H> {
        FiberView {
            id: self.id,
            util: self.util,
            supervisor: self.supervisor,
            owned: self.owned,
            machine: match self.machine {
                Some(machine) => Some(machine@),
                None => None,
            },
            driver: match self.driver {
                Some(driver) => Some(driver@),
                None => None,
            },
            running: self.running,
            started: self.started,
            events: self.events@,
            result: self.result,
            joins: self.joins@,
            next_join: self.next_join,
            anew: self.anew@,
            rethrow: self.rethrow,
            notices: self.notices@,
        }
    }
}

/// Whether all these observers have numbers below `bound`.
pub open spec fn are_below<H>(joins: Map<usize, AffJoin<H>>, bound: usize) -> bool {
    forall|join: usize| #[trigger] joins.contains_key(join) ==> join < bound
}

impl<H> FiberView<H> {
    /// A fiber is done, on the move, or at rest with its machine. One that is
    /// done takes no observers and no events any more. Until the numbers of
    /// observers begin anew, the next one is free.
    pub open spec fn wf(self) -> bool {
        &&& self.running <==> self.driver is Some
        &&& self.running ==> self.started && self.result is None && self.machine is None
        &&& !self.running && self.result is None ==> self.machine is Some
        &&& self.machine matches Some(machine) ==> machine.wf()
        &&& self.driver matches Some(driver) ==> driver.wf()
        &&& self.result is Some ==> {
            &&& self.started
            &&& self.machine is None
            &&& self.events.len() == 0
            &&& self.joins =~= Map::empty()
        }
        &&& self.notices.len() > 0 ==> self.result is Some
        &&& self.anew || are_below(self.joins, self.next_join)
    }

    /// Whether the fiber waits to be started or observed.
    pub open spec fn is_suspended(self) -> bool {
        !self.started && self.result is None
    }

    /// Whether the register of active fibers knows this one as long as it runs,
    /// and not before it has started.
    pub open spec fn is_linked(self, runtime: RuntimeView<H>) -> bool {
        &&& self.id < runtime.next_id
        &&& self.started && self.result is None ==> runtime.fibers.contains(self.id)
        &&& !self.started ==> !runtime.fibers.contains(self.id)
        &&& self.notices.len() > 0 ==> runtime.fibers.contains(self.id)
    }

    /// Whether a thread may take the fiber on.
    pub open spec fn is_drivable(self) -> bool {
        !self.running && self.started && self.result is None
    }

    /// A fiber that has not started.
    pub open spec fn fresh(
        id: usize,
        util: AffUtil<H>,
        supervisor: Option<usize>,
        owned: bool,
        node: AffNodeRef<H>,
    ) -> FiberView<H> {
        FiberView {
            id,
            util,
            supervisor,
            owned,
            machine: Some(MachineView::start(node)),
            driver: None,
            running: false,
            started: false,
            events: Seq::empty(),
            result: None,
            joins: Map::empty(),
            next_join: 0,
            anew: false,
            rethrow: true,
            notices: Seq::empty(),
        }
    }

    pub open spec fn begun(self) -> FiberView<H> {
        FiberView { started: true, ..self }
    }

    /// The fiber after an event has been queued. A kill starts it.
    pub open spec fn with_event(self, event: AffEvent<H>) -> FiberView<H> {
        FiberView {
            started: self.started || event is Kill,
            events: self.events.push(event),
            ..self
        }
    }

    /// The fiber after an observer has come. One that comes after the end is
    /// not kept.
    pub open spec fn observed(self, rethrow: bool, callback: AffCallback<H>) -> FiberView<H> {
        let next = FiberView {
            next_join: wrapping_next(self.next_join),
            anew: self.anew || self.next_join == usize::MAX,
            ..self
        };
        match self.result {
            Some(_) => FiberView { rethrow: self.rethrow && rethrow, ..next },
            None => FiberView {
                joins: self.joins.insert(self.next_join, AffJoin { rethrow, callback }),
                ..next
            },
        }
    }

    /// The fiber without this observer.
    pub open spec fn detached(self, join: usize) -> FiberView<H> {
        FiberView { joins: self.joins.remove(join), ..self }
    }

    /// What an observer that comes now is told at once.
    pub open spec fn immediate(self, callback: AffCallback<H>) -> Option<AffNotice<H>> {
        match self.result {
            Some(result) => Some(callback.notice(result)),
            None => None,
        }
    }

    /// The runtime after an observer has come to this fiber. If the fiber has
    /// ended and the observer takes care of errors, its error is forgotten.
    pub open spec fn forgiven(self, rethrow: bool, runtime: RuntimeView<H>) -> RuntimeView<H> {
        if self.result is Some && !rethrow {
            runtime.without_error(self.id)
        } else {
            runtime
        }
    }

    /// The runtime after this fiber has been started, if it has not been.
    pub open spec fn registered(self, runtime: RuntimeView<H>) -> RuntimeView<H> {
        if self.is_suspended() {
            runtime.entered(self.id)
        } else {
            runtime
        }
    }

    /// The fiber at the moment a thread takes it on, as a machine on the move.
    pub open spec fn drive(self) -> DriveView<H> {
        DriveView {
            machine: self.machine->0,
            backlog: Seq::empty(),
            fresh: true,
            events: self.events,
        }
    }

    /// The fiber where a run of its machine ends. One whose machine is done
    /// still has to be completed.
    pub open spec fn turned(self, turn: TurnView<H>) -> FiberView<H> {
        let moved = FiberView { running: false, machine: None, driver: None, ..self };
        match turn {
            TurnView::Ask { drive, request } => FiberView {
                running: true,
                driver: Some(driver_of(drive, request)),
                events: drive.events,
                ..moved
            },
            TurnView::Suspended(machine) => FiberView {
                machine: Some(machine),
                events: Seq::empty(),
                ..moved
            },
            TurnView::Yielded(machine, events) => FiberView {
                machine: Some(machine),
                events,
                ..moved
            },
            TurnView::Finished(_, events) => FiberView { events, ..moved },
        }
    }

    /// Whether every observer wants an error of this fiber to be reported.
    pub open spec fn all_rethrow(self) -> bool {
        forall|join: usize| #[trigger] self.joins.contains_key(join) ==> self.joins[join].rethrow
    }

    /// The observers to be told that the fiber has ended, in the order in which
    /// they came.
    pub open spec fn due(self, result: AffResult<H>) -> Seq<AffNotice<H>> {
        listing(self.joins).map_values(|join: (usize, AffJoin<H>)| join.1.callback.notice(result))
    }

    /// The fiber once it has ended.
    pub open spec fn completed(self, result: AffResult<H>) -> FiberView<H> {
        FiberView {
            machine: None,
            driver: None,
            running: false,
            events: Seq::empty(),
            result: Some(result),
            joins: Map::empty(),
            rethrow: self.rethrow && self.all_rethrow(),
            notices: self.due(result),
            ..self
        }
    }

    /// The fiber once the next of its observers has been told of the end.
    pub open spec fn told(self) -> FiberView<H> {
        FiberView { notices: self.notices.skip(1), ..self }
    }

    /// The runtime once this fiber has ended. An error is kept unless an
    /// observer takes care of it.
    pub open spec fn reported(self, result: AffResult<H>, runtime: RuntimeView<H>) -> RuntimeView<
        H,
    > {
        match result {
            Err(error) if self.rethrow && self.all_rethrow() => runtime.with_error(self.id, error),
            _ => runtime,
        }
    }
}

/// What follows for the thread that drives a fiber.
pub enum AffTurn<H> {
    /// Nothing: the fiber is done, not started, or on the move elsewhere.
    Idle,
    /// Do this work and hand back what came of it.
    Ask(AffRequest<H>),
    Suspended,
    /// The thread is free; if `true`, the fiber has events and must be driven on
    /// another one.
    Yielded(bool),
    /// The machine is done: complete the fiber.
    Finished(AffResult<H>),
}

/// What follows from where a run ended.
pub open spec fn turn_of<H>(turn: TurnView<H>) -> AffTurn<H> {
    match turn {
        TurnView::Ask { request, .. } => AffTurn::Ask(request),
        TurnView::Suspended(_) => AffTurn::Suspended,
        TurnView::Yielded(_, events) => AffTurn::Yielded(events.len() > 0),
        TurnView::Finished(result, _) => AffTurn::Finished(result),
    }
}

impl<H> AffFiber<H> {
    /// A fiber that has not started.
    pub fn new(
        runtime: &mut AffRuntime<H>,
        util: AffUtil<H>,
        supervisor: Option<usize>,
        owned: bool,
        node: AffNodeRef<H>,
    ) -> (fiber: AffFiber<H>)
        requires
            old(runtime)@.wf(),
            old(runtime)@.has_room(),
        ensures
            fiber@ == FiberView::fresh(old(runtime)@.next_id, util, supervisor, owned, node),
            fiber@.wf(),
            fiber@.is_linked(final(runtime)@),
            final(runtime)@ == old(runtime)@.with_next_id(),
            final(runtime)@.wf(),
    {
        let id: usize = runtime.fresh_id();
        AffFiber {
            id,
            util,
            supervisor,
            owned,
            machine: Some(AffMachine::new(node)),
            driver: None,
            running: false,
            started: false,
            events: VecDeque::new(),
            result: None,
            joins: BTreeMap::new(),
            next_join: 0,
            anew: Ghost(false),
            rethrow: true,
            notices: VecDeque::new(),
        }
    }

    /// Claims the fiber for its first run, exactly once. It counts as active
    /// from here on, so that the entry point cannot exit before it has run.
    pub fn begin(&mut self, runtime: &mut AffRuntime<H>) -> (claimed: bool)
        requires
            old(self)@.wf(),
            old(runtime)@.wf(),
            old(self)@.is_linked(old(runtime)@),
        ensures
            claimed == old(self)@.is_suspended(),
            final(self)@ == if claimed {
                old(self)@.begun()
            } else {
                old(self)@
            },
            final(runtime)@ == old(self)@.registered(old(runtime)@),
            final(self)@.wf(),
            final(runtime)@.wf(),
            final(self)@.is_linked(final(runtime)@),
    {
        if self.started || self.result.is_some() {
            return false;
        }
        self.started = true;
        runtime.enter(self.id);
        true
    }

    /// Queues an event. A fiber that is done ignores it. A kill starts a fiber
    /// that has not started, so that the kill comes before its first
    /// instruction. The result says whether the fiber has to be driven.
    pub fn event(&mut self, runtime: &mut AffRuntime<H>, event: AffEvent<H>) -> (drive: bool)
        requires
            old(self)@.wf(),
            old(runtime)@.wf(),
            old(self)@.is_linked(old(runtime)@),
        ensures
            drive == old(self)@.result is None,
            final(self)@ == if drive {
                old(self)@.with_event(event)
            } else {
                old(self)@
            },
            final(runtime)@ == if event is Kill {
                old(self)@.registered(old(runtime)@)
            } else {
                old(runtime)@
            },
            final(self)@.wf(),
            final(runtime)@.wf(),
            final(self)@.is_linked(final(runtime)@),
    {
        if self.result.is_some() {
            return false;
        }
        let kill: bool = match &event {
            AffEvent::Kill(_) => true,
            _ => false,
        };
        if !self.started && kill {
            self.started = true;
            runtime.enter(self.id);
        }
        self.events.push_back(event);
        true
    }

    /// Adds an observer. One that comes after the end is told at once, and if
    /// it takes care of errors, the error of this fiber is no longer reported.
    pub fn observe(
        &mut self,
        runtime: &mut AffRuntime<H>,
        rethrow: bool,
        callback: AffCallback<H>,
    ) -> (observed: (usize, Option<AffNotice<H>>))
        requires
            old(self)@.wf(),
        ensures
            observed.0 == old(self)@.next_join,
            observed.1 == old(self)@.immediate(callback),
            final(self)@ == old(self)@.observed(rethrow, callback),
            final(runtime)@ == old(self)@.forgiven(rethrow, old(runtime)@),
            final(self)@.wf(),
    {
        broadcast use vstd::std_specs::btree::group_btree_axioms;
        broadcast use vstd::laws_cmp::group_laws_cmp;

        let id: usize = self.next_join;
        self.next_join = id.wrapping_add(1);
        let ghost anew = self.anew@ || id == usize::MAX;
        self.anew = Ghost(anew);
        match &self.result {
            Some(result) => {
                let notice: AffNotice<H> = callback.to_notice(result);
                self.rethrow = self.rethrow && rethrow;
                if !rethrow {
                    runtime.forgive(self.id);
                }
                (id, Some(notice))
            },
            None => {
                self.joins.insert(id, AffJoin { rethrow, callback });
                (id, None)
            },
        }
    }

    /// Removes an observer, and tells whether it was there. One that is being
    /// told of the end, or has been, is gone.
    pub fn revoke(&mut self, join: usize) -> (found: bool)
        requires
            old(self)@.wf(),
        ensures
            found == old(self)@.joins.contains_key(join),
            final(self)@ == old(self)@.detached(join),
            final(self)@.wf(),
    {
        broadcast use vstd::std_specs::btree::group_btree_axioms;
        broadcast use vstd::laws_cmp::group_laws_cmp;

        let found: bool = self.joins.remove(&join).is_some();
        assert(self@.joins =~= old(self)@.joins.remove(join));
        found
    }

    /// Asks the fiber to stop. `target` is told when the fiber has ended, which
    /// may be already: then it is told at once, and nothing else happens. An
    /// error that the fiber ended with is still reported. The last part of the
    /// result says whether the fiber has to be driven.
    pub fn kill(&mut self, runtime: &mut AffRuntime<H>, error: AffValue<H>, target: AffTarget<H>) -> (killed: (
        usize,
        Option<AffNotice<H>>,
        bool,
    ))
        requires
            old(self)@.wf(),
            old(runtime)@.wf(),
            old(self)@.is_linked(old(runtime)@),
        ensures
            killed.0 == old(self)@.next_join,
            killed.1 == old(self)@.immediate(AffCallback::Acknowledge(target)),
            killed.2 == old(self)@.result is None,
            final(self)@ == old(self)@.killed(error, target),
            final(runtime)@ == old(self)@.registered(old(runtime)@),
            final(self)@.wf(),
            final(runtime)@.wf(),
            final(self)@.is_linked(final(runtime)@),
    {
        let ended: bool = self.result.is_some();
        let (join, notice) = self.observe(runtime, ended, AffCallback::Acknowledge(target));
        let drive: bool = self.event(runtime, AffEvent::Kill(error));
        (join, notice, drive)
    }

    /// Ends the fiber. A fiber ends once: a second end changes nothing.
    pub fn complete(&mut self, runtime: &mut AffRuntime<H>, result: AffResult<H>) -> (ended: bool)
        requires
            old(self)@.started,
            old(self)@.result is Some ==> old(self)@.wf(),
        ensures
            ended == old(self)@.result is None,
            final(self)@ == if ended {
                old(self)@.completed(result)
            } else {
                old(self)@
            },
            final(runtime)@ == if ended {
                old(self)@.reported(result, old(runtime)@)
            } else {
                old(runtime)@
            },
            final(self)@.wf(),
    {
        if self.result.is_some() {
            return false;
        }
        let mut joins: BTreeMap<usize, AffJoin<H>> = BTreeMap::new();
        std::mem::swap(&mut self.joins, &mut joins);
        let entries: Vec<(usize, AffJoin<H>)> = into_entries(joins);
        let rethrow: bool = all_rethrow(&entries, Ghost(old(self)@.joins));
        self.rethrow = self.rethrow && rethrow;
        if self.rethrow {
            if let Err(error) = &result {
                runtime.record_error(self.id, error.clone());
            }
        }
        self.machine = None;
        self.driver = None;
        self.running = false;
        self.events.clear();
        self.notices = to_notices(entries, &result);
        self.result = Some(result);
        proof {
            assert(self@.notices =~= old(self)@.due(result));
        }
        true
    }

    /// Takes out the next observer that has to be told of the end.
    pub fn next_notice(&mut self) -> (notice: Option<AffNotice<H>>)
        requires
            old(self)@.wf(),
        ensures
            match notice {
                Some(notice) => old(self)@.notices.len() > 0 && notice == old(self)@.notices[0]
                    && final(self)@ == old(self)@.told(),
                None => old(self)@.notices.len() == 0 && final(self)@ == old(self)@,
            },
            final(self)@.wf(),
    {
        let notice: Option<AffNotice<H>> = self.notices.pop_front();
        assert(notice is Some ==> self@.notices =~= old(self)@.notices.skip(1));
        notice
    }

    /// Whether the fiber waits to be started or observed.
    pub fn is_suspended(&self) -> (suspended: bool)
        ensures
            suspended == self@.is_suspended(),
    {
        !self.started && self.result.is_none()
    }

    fn finish_turn(&mut self, pause: AffPause<H>) -> (turn: AffTurn<H>)
        requires
            pause.wf(),
            pause is Suspended ==> old(self)@.events.len() == 0,
            old(self)@.machine is None,
            old(self)@.driver is None,
            !old(self)@.running,
            old(self)@.started,
            old(self)@.result is None,
            old(self)@.notices.len() == 0,
            old(self)@.anew || are_below(old(self)@.joins, old(self)@.next_join),
        ensures
            turn == turn_of(pause.turn(old(self)@.events)),
            final(self)@ == old(self)@.turned(pause.turn(old(self)@.events)),
            !(turn is Finished) ==> final(self)@.wf(),
    {
        match pause {
            AffPause::Ask(driver, request) => {
                self.driver = Some(driver);
                self.running = true;
                AffTurn::Ask(request)
            },
            AffPause::Suspended(machine) => {
                self.machine = Some(machine);
                assert(self@.events =~= Seq::empty());
                AffTurn::Suspended
            },
            AffPause::Yielded(machine) => {
                self.machine = Some(machine);
                AffTurn::Yielded(self.events.len() > 0)
            },
            AffPause::Finished(result) => AffTurn::Finished(result),
        }
    }

    /// Takes the fiber on and runs it until it needs outside work, waits or is
    /// done. A fiber that has not started, is done or is on the move elsewhere
    /// is left alone.
    pub fn drive_inner(&mut self) -> (turn: AffTurn<H>)
        requires
            old(self)@.wf(),
        ensures
            turn == if old(self)@.is_drivable() {
                turn_of(old(self)@.drive().run())
            } else {
                AffTurn::Idle
            },
            final(self)@ == if old(self)@.is_drivable() {
                old(self)@.turned(old(self)@.drive().run())
            } else {
                old(self)@
            },
            !(turn is Finished) ==> final(self)@.wf(),
    {
        if self.running || !self.started || self.result.is_some() {
            return AffTurn::Idle;
        }
        let mut taken: Option<AffMachine<H>> = None;
        std::mem::swap(&mut self.machine, &mut taken);
        match taken {
            Some(machine) => {
                let backlog: VecDeque<AffEvent<H>> = VecDeque::new();
                let pause: AffPause<H> = aff_run(machine, backlog, true, &mut self.events);
                self.finish_turn(pause)
            },
            None => AffTurn::Idle,
        }
    }

    /// Hands the reply to a request to the machine that made it, and runs on. A
    /// reply that nobody waits for is dropped.
    pub fn resume(&mut self, reply: AffReply<H>) -> (turn: AffTurn<H>)
        requires
            old(self)@.wf(),
        ensures
            turn == if old(self)@.awaits(reply) {
                turn_of(old(self)@.resumed(reply))
            } else {
                AffTurn::Idle
            },
            final(self)@ == if old(self)@.awaits(reply) {
                old(self)@.turned(old(self)@.resumed(reply))
            } else {
                old(self)@
            },
            !(turn is Finished) ==> final(self)@.wf(),
    {
        let mut taken: Option<AffDriver<H>> = None;
        std::mem::swap(&mut self.driver, &mut taken);
        match taken {
            Some(driver) => {
                if !is_reply_for(driver.wait, &reply) {
                    self.driver = Some(driver);
                    return AffTurn::Idle;
                }
                self.running = false;
                let pause: AffPause<H> = driver.resume(reply, &mut self.events);
                self.finish_turn(pause)
            },
            None => AffTurn::Idle,
        }
    }
}

impl<H> FiberView<H> {
    /// The fiber after an attempt to kill it. One that has ended ignores it: it
    /// does not even count as observed by somebody who takes care of errors.
    pub open spec fn killed(self, error: AffValue<H>, target: AffTarget<H>) -> FiberView<H> {
        let observed = self.observed(self.result is Some, AffCallback::Acknowledge(target));
        if self.result is None {
            observed.with_event(AffEvent::Kill(error))
        } else {
            observed
        }
    }

    /// Whether the fiber waits for a reply like this one.
    pub open spec fn awaits(self, reply: AffReply<H>) -> bool {
        self.driver matches Some(driver) && reply_fits(driver.wait, reply)
    }

    /// Where the run that follows a reply ends.
    pub open spec fn resumed(self, reply: AffReply<H>) -> TurnView<H> {
        self.driver->0.drive(self.events).resumed(self.driver->0.wait, reply)
    }
}

fn all_rethrow<H>(
    entries: &Vec<(usize, AffJoin<H>)>,
    Ghost(joins): Ghost<Map<usize, AffJoin<H>>>,
) -> (all: bool)
    requires
        lists(joins, entries@),
    ensures
        all == forall|join: usize| #[trigger] joins.contains_key(join) ==> joins[join].rethrow,
{
    let mut i: usize = 0;
    while i < entries.len()
        invariant
            i <= entries.len(),
            lists(joins, entries@),
            forall|k: int| 0 <= k < i ==> (#[trigger] entries@[k]).1.rethrow,
        decreases entries.len() - i,
    {
        if !entries[i].1.rethrow {
            assert(joins.contains_key(entries@[i as int].0));
            return false;
        }
        i = i + 1;
    }
    true
}

fn to_notices<H>(entries: Vec<(usize, AffJoin<H>)>, result: &AffResult<H>) -> (notices: VecDeque<
    AffNotice<H>,
>)
    ensures
        notices@ == entries@.map_values(
            |join: (usize, AffJoin<H>)| join.1.callback.notice(*result),
        ),
{
    let mut notices: VecDeque<AffNotice<H>> = VecDeque::new();
    for entry in it: entries
        invariant
            it.seq() == entries@,
            notices@.len() == it.index(),
            forall|k: int|
                0 <= k < notices@.len() ==> #[trigger] notices@[k]
                    == entries@[k].1.callback.notice(*result),
    {
        notices.push_back(entry.1.callback.to_notice(result));
    }
    assert(notices@ =~= entries@.map_values(
        |join: (usize, AffJoin<H>)| join.1.callback.notice(*result),
    ));
    notices
}

} // verus!
