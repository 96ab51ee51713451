//! One task after another: what each of them changes, which tasks follow from
//! it, and what the embedding program has to do.
use crate::branches::{aff_run_parallel, AffBirth};
use crate::driver::{is_reply_for, AffReply, AffWait, TurnView};
use crate::fault::AffFault;
use crate::fiber::{turn_of, AffFiber, AffTurn, FiberView};
use crate::machine::{AffCancel, AffEvent, AffRequest};
use crate::moved::Moved;
use crate::runtime::aff_record_panic;
use crate::system::{lemma_same_fibers, AffSystem, SystemView};
use crate::target::{AffNotice, AffTarget};
use crate::task::{AffHostCall, AffTask};
use crate::timer::AffTimerKey;
use crate::util::AffUtil;
use crate::value::{aff_box, AffCell, AffNative, AffNode, AffNodeRef, AffResult, AffValue};
use vstd::prelude::*;

verus! {

impl<H> SystemView<H> {
    /// Ends the wait that a fiber registered at this tick.
    pub open spec fn resolving(self, id: usize, tick: usize, result: AffResult<H>) -> Moved<H> {
        if self.fibers.contains_key(id) && self.fibers[id].result is None {
            self.with_fiber(
                self.fibers[id].with_event(AffEvent::Resolve(tick, result)),
            ).leading_to(seq![AffTask::Drive(id)])
        } else {
            self.leading_to(seq![])
        }
    }

    /// Tells something to whom it concerns.
    pub open spec fn telling(self, notice: AffNotice<H>) -> Moved<H> {
        match notice.target {
            AffTarget::Foreign { callback, util } => self.asking(
                AffHostCall::Notice { encoded: util.encoding(notice.result), callback },
            ),
            AffTarget::Effect(effect) => self.asking(AffHostCall::Run(effect)),
            AffTarget::Resolve { fiber, tick } => self.resolving(fiber, tick, notice.result),
            AffTarget::Settle { run, entry } => self.settling(run, entry, notice.result),
            AffTarget::Outcome { run, entry, outcome } => self.settling(run, entry, outcome),
            AffTarget::Killed(token) => self.acknowledged(token),
        }
    }

    /// Tells the next observer of a fiber that has ended, or takes the fiber
    /// off the register when all of them know.
    pub open spec fn notifying(self, id: usize) -> Moved<H> {
        if self.fibers.contains_key(id) && self.fibers[id].notices.len() > 0 {
            self.with_fiber(self.fibers[id].told()).leading_to(
                seq![AffTask::Notify(id), AffTask::Tell(self.fibers[id].notices[0])],
            )
        } else if self.fibers.contains_key(id) && self.fibers[id].result is Some
            && self.runtime.fibers.contains(id) {
            let retired = self.with_runtime(self.runtime.retired(id));
            if self.fibers[id].owned {
                retired.leading_to(seq![])
            } else {
                SystemView { fibers: self.fibers.remove(id), ..retired }.leading_to(seq![])
            }
        } else {
            self.leading_to(seq![])
        }
    }

    /// The end of a fiber.
    pub open spec fn ending(self, fiber: FiberView<H>, result: AffResult<H>) -> Moved<H> {
        self.with_runtime(fiber.reported(result, self.runtime)).with_fiber(
            fiber.completed(result),
        ).unsupervised(fiber.supervisor, fiber.id).leading_to(seq![AffTask::Notify(fiber.id)])
    }

    /// A Rust panic that has hit a fiber is recorded, and the fiber ends with
    /// an error, so that those who wait for it end too.
    pub open spec fn panicking(self, id: usize) -> Moved<H> {
        let next = self.with_runtime(self.runtime.with_panic());
        if self.fibers.contains_key(id) && self.fibers[id].started && self.fibers[id].result is None {
            next.ending(self.fibers[id], Err(AffValue::Fault(AffFault::Panicked)))
        } else {
            next.leading_to(seq![])
        }
    }
}

/// A description that is handed back as the computation that comes next.
pub open spec fn next_is<H>(node: AffNode<H>) -> AffReply<H> {
    AffReply::Next(Ok(AffValue::Aff(std::sync::Arc::new(AffCell { node }))))
}

/// The description that waits until a parallel run has been stopped.
pub open spec fn halt_node<H>(run: usize, error: AffValue<H>) -> AffNode<H> {
    AffNode::NativeAsync { yield_after_registration: false, build: AffNative::Halt(run, error) }
}

impl<H> SystemView<H> {
    /// The runtime itself panics in the middle of a fiber.
    pub open spec fn failing(self, id: usize, fault: AffFault) -> Moved<H> {
        Moved {
            system: self,
            tasks: seq![AffTask::Panicked(id)],
            call: Some(AffHostCall::Fault(fault)),
        }
    }

    /// Registers a timer that ends the wait of fiber `id`.
    pub open spec fn delaying(self, id: usize, tick: usize, delay: Option<u128>, now: u128) -> Moved<
        H,
    > {
        match delay {
            None => self.failing(id, AffFault::Duration),
            Some(nanoseconds) => if now + nanoseconds > self.horizon {
                self.failing(id, AffFault::Deadline)
            } else if !self.runtime.has_room() {
                self.failing(id, AffFault::Exhausted)
            } else {
                let key = ((now + nanoseconds) as u128, self.runtime.next_id);
                SystemView {
                    runtime: self.runtime.with_next_id(),
                    timers: self.timers.insert(key, AffTarget::Resolve { fiber: id, tick }),
                    ..self
                }.leading_to(seq![AffTask::Reply(id, AffReply::Registered(AffCancel::Timer(key)))])
            },
        }
    }

    /// Makes a child of a fiber.
    pub open spec fn forking(
        self,
        id: usize,
        util: AffUtil<H>,
        supervisor: Option<usize>,
        immediate: bool,
        node: AffNodeRef<H>,
    ) -> Moved<H> {
        if !self.runtime.has_room() {
            self.failing(id, AffFault::Exhausted)
        } else {
            self.bearing(
                AffBirth { util, supervisor, owned: true, observer: None, immediate },
                node,
            ).asking(AffHostCall::Forked { parent: id, child: self.runtime.next_id })
        }
    }

    /// What fiber `id` has asked for. What the runtime can do itself is done;
    /// the rest is left to the embedding program.
    pub open spec fn performing(
        self,
        id: usize,
        util: AffUtil<H>,
        supervisor: Option<usize>,
        request: AffRequest<H>,
        now: u128,
    ) -> Moved<H> {
        match request {
            AffRequest::Fork(immediate, node) => self.forking(
                id,
                util,
                supervisor,
                immediate,
                node,
            ),
            AffRequest::Async(build, tick) => self.asking(
                AffHostCall::Build { fiber: id, build, tick, util },
            ),
            AffRequest::Native { build: AffNative::Delay(delay), tick, .. } => self.delaying(
                id,
                tick,
                delay,
                now,
            ),
            AffRequest::Native { build: AffNative::Halt(run, error), tick, .. } => self.halting(
                id,
                tick,
                run,
                error,
            ),
            AffRequest::Parallel(root, tick) => if self.can_run(root) {
                self.running(
                    util,
                    supervisor,
                    root,
                    AffTarget::Resolve { fiber: id, tick },
                ).leading_to(
                    seq![
                        AffTask::Reply(id, AffReply::Registered(AffCancel::Parallel(self.next_token))),
                    ],
                )
            } else {
                self.failing(id, AffFault::Exhausted)
            },
            AffRequest::Revoke(token) => self.revoking(token).leading_to(
                seq![AffTask::Reply(id, AffReply::Outcome(Ok(AffValue::Unit)))],
            ),
            AffRequest::Cancel(AffCancel::Nothing, _) => self.leading_to(
                seq![AffTask::Reply(id, next_is(AffNode::Pure(AffValue::Unit)))],
            ),
            AffRequest::Cancel(AffCancel::Timer(key), _) => SystemView {
                timers: self.timers.remove(key),
                ..self
            }.leading_to(seq![AffTask::Reply(id, next_is(AffNode::Pure(AffValue::Unit)))]),
            AffRequest::Cancel(AffCancel::Parallel(run), error) => self.leading_to(
                seq![AffTask::Reply(id, next_is(halt_node(run, error)))],
            ),
            AffRequest::Cancel(AffCancel::Killing(token), _) => self.leading_to(
                seq![AffTask::Reply(id, next_is(AffNode::Revoke(token)))],
            ),
            AffRequest::Misuse => self.failing(id, AffFault::Misuse),
            _ => self.asking(AffHostCall::Request(id, request)),
        }
    }

    /// What follows when a run of the machine of a fiber has ended.
    pub open spec fn turning(self, fiber: FiberView<H>, turn: TurnView<H>, now: u128) -> Moved<H> {
        let moved = fiber.turned(turn);
        let next = self.with_fiber(moved);
        match turn {
            TurnView::Ask { request, .. } => next.performing(
                fiber.id,
                fiber.util,
                fiber.supervisor,
                request,
                now,
            ),
            TurnView::Suspended(_) => next.leading_to(seq![]),
            TurnView::Yielded(_, events) => if events.len() > 0 {
                next.asking(AffHostCall::Resume(fiber.id))
            } else {
                next.leading_to(seq![])
            },
            TurnView::Finished(result, _) => self.ending(moved, result),
        }
    }

    /// Takes a fiber on.
    pub open spec fn driving(self, id: usize, now: u128) -> Moved<H> {
        if self.fibers.contains_key(id) && self.fibers[id].is_drivable() {
            self.turning(self.fibers[id], self.fibers[id].drive().run(), now)
        } else {
            self.leading_to(seq![])
        }
    }

    /// Whether fiber `id` waits for a computation, and this is not one.
    pub open spec fn is_broken_reply(self, id: usize, reply: AffReply<H>) -> bool {
        &&& self.fibers.contains_key(id)
        &&& self.fibers[id].driver matches Some(driver)
        &&& driver.wait is Next || driver.wait is Undo
        &&& reply matches AffReply::Next(Ok(value))
        &&& !(value is Aff)
    }

    /// Hands a reply to the fiber that waits for it. Something else in place of
    /// a computation is a panic; other replies that do not fit are dropped.
    pub open spec fn replying(self, id: usize, reply: AffReply<H>, now: u128) -> Moved<H> {
        if self.fibers.contains_key(id) && self.fibers[id].awaits(reply) {
            self.turning(self.fibers[id], self.fibers[id].resumed(reply), now)
        } else if self.is_broken_reply(id, reply) {
            self.failing(id, AffFault::NotAff)
        } else {
            self.leading_to(seq![])
        }
    }

    /// What a task leads to at the time `now`.
    pub open spec fn step(self, task: AffTask<H>, now: u128) -> Moved<H> {
        match task {
            AffTask::Drive(id) => self.driving(id, now),
            AffTask::Reply(id, reply) => self.replying(id, reply, now),
            AffTask::Notify(id) => self.notifying(id),
            AffTask::Tell(notice) => self.telling(notice),
            AffTask::KillNext(token) => self.killing_next(token),
            AffTask::Panicked(id) => self.panicking(id),
        }
    }
}

impl<H> AffSystem<H> {
    /// Ends the wait that a fiber registered at this tick.
    fn resolve(
        &mut self,
        id: usize,
        tick: usize,
        result: AffResult<H>,
        agenda: &mut Vec<AffTask<H>>,
    )
        requires
            old(self)@.wf(),
        ensures
            final(self)@ == old(self)@.resolving(id, tick, result).system,
            final(agenda)@ == old(agenda)@ + old(self)@.resolving(id, tick, result).tasks,
            old(self)@.resolving(id, tick, result).call is None,
            final(self)@.wf(),
    {
        let ghost before = self@;
        match self.fibers.take(id) {
            Some(mut fiber) => {
                assert(before.fiber_fits(id));
                let drive: bool = fiber.event(&mut self.runtime, AffEvent::Resolve(tick, result));
                self.put_fiber(fiber, Ghost(before));
                if drive {
                    agenda.push(AffTask::Drive(id));
                } else {
                    assert(self@ =~= before);
                }
            },
            None => {
                assert(self@ =~= before);
            },
        }
    }

    /// Tells something to whom it concerns.
    fn tell(&mut self, notice: AffNotice<H>, agenda: &mut Vec<AffTask<H>>) -> (call: Option<
        AffHostCall<H>,
    >)
        requires
            old(self)@.wf(),
        ensures
            final(self)@ == old(self)@.telling(notice).system,
            final(agenda)@ == old(agenda)@ + old(self)@.telling(notice).tasks,
            call == old(self)@.telling(notice).call,
            final(self)@.wf(),
    {
        match notice.target {
            AffTarget::Foreign { callback, util } => Some(
                AffHostCall::Notice { encoded: util.encode(notice.result), callback },
            ),
            AffTarget::Effect(effect) => Some(AffHostCall::Run(effect)),
            AffTarget::Resolve { fiber, tick } => {
                self.resolve(fiber, tick, notice.result, agenda);
                None
            },
            AffTarget::Settle { run, entry } => self.settle(run, entry, notice.result, agenda),
            AffTarget::Outcome { run, entry, outcome } => self.settle(run, entry, outcome, agenda),
            AffTarget::Killed(token) => {
                self.acknowledge(token, agenda);
                None
            },
        }
    }

    /// Tells the next observer of a fiber that has ended, or takes the fiber
    /// off the register.
    fn notify(&mut self, id: usize, agenda: &mut Vec<AffTask<H>>)
        requires
            old(self)@.wf(),
        ensures
            final(self)@ == old(self)@.notifying(id).system,
            final(agenda)@ == old(agenda)@ + old(self)@.notifying(id).tasks,
            old(self)@.notifying(id).call is None,
            final(self)@.wf(),
    {
        let ghost before = self@;
        let mut fiber: AffFiber<H> = match self.fibers.take(id) {
            Some(fiber) => fiber,
            None => {
                assert(self@ =~= before);
                return;
            },
        };
        assert(before.fiber_fits(id));
        if let Some(notice) = fiber.next_notice() {
            agenda.push(AffTask::Notify(id));
            agenda.push(AffTask::Tell(notice));
            self.put_fiber(fiber, Ghost(before));
            assert(agenda@ =~= old(agenda)@ + before.notifying(id).tasks);
            return;
        }
        let ended: bool = fiber.result.is_some();
        if ended && self.runtime.is_registered(id) {
            self.runtime.retire(id);
            if fiber.owned {
                self.put_fiber(fiber, Ghost(before));
                assert(self@ =~= before.notifying(id).system);
            } else {
                assert forall|other: usize| #[trigger] self@.fibers.contains_key(
                    other,
                ) implies self@.fiber_fits(other) by {
                    assert(before.fibers.contains_key(other));
                    assert(before.fiber_fits(other));
                }
            }
        } else {
            self.put_fiber(fiber, Ghost(before));
            assert(self@ =~= before);
        }
    }

    /// Ends a fiber that was taken out.
    fn end(
        &mut self,
        fiber: AffFiber<H>,
        result: AffResult<H>,
        agenda: &mut Vec<AffTask<H>>,
        Ghost(before): Ghost<SystemView<H>>,
    )
        requires
            before.wf(),
            old(self)@ == (SystemView { fibers: before.fibers.remove(fiber.id), ..before }),
            before.fibers.contains_key(fiber.id),
            fiber.started,
            fiber.result is None,
            fiber@.is_linked(before.runtime),
        ensures
            final(self)@ == before.ending(fiber@, result).system,
            final(agenda)@ == old(agenda)@ + before.ending(fiber@, result).tasks,
            before.ending(fiber@, result).call is None,
            final(self)@.wf(),
    {
        let mut ending: AffFiber<H> = fiber;
        let id: usize = ending.id;
        let supervisor: Option<usize> = ending.supervisor;
        let _ = ending.complete(&mut self.runtime, result);
        self.put_fiber(ending, Ghost(before));
        self.unsupervise(supervisor, id);
        agenda.push(AffTask::Notify(id));
    }

    /// Records a panic that has hit a fiber, and ends the fiber.
    fn panicked(&mut self, id: usize, agenda: &mut Vec<AffTask<H>>)
        requires
            old(self)@.wf(),
        ensures
            final(self)@ == old(self)@.panicking(id).system,
            final(agenda)@ == old(agenda)@ + old(self)@.panicking(id).tasks,
            old(self)@.panicking(id).call is None,
            final(self)@.wf(),
    {
        let _ = aff_record_panic(&mut self.runtime);
        let ghost before = self@;
        proof {
            assert forall|id: usize| #[trigger] before.fibers.contains_key(id) implies before.fiber_fits(
                id,
            ) by {
                assert(old(self)@.fiber_fits(id));
            }
            assert(before.wf());
        }
        match self.fibers.take(id) {
            Some(fiber) => {
                assert(before.fiber_fits(id));
                if fiber.started && fiber.result.is_none() {
                    self.end(
                        fiber,
                        Err(AffValue::Fault(AffFault::Panicked)),
                        agenda,
                        Ghost(before),
                    );
                } else {
                    self.put_fiber(fiber, Ghost(before));
                    assert(self@ =~= before);
                }
            },
            None => {
                assert(self@ =~= before);
            },
        }
    }

    /// Registers a timer that ends the wait of fiber `id`.
    fn delay(
        &mut self,
        id: usize,
        tick: usize,
        delay: Option<u128>,
        now: u128,
        agenda: &mut Vec<AffTask<H>>,
    ) -> (call: Option<AffHostCall<H>>)
        requires
            old(self)@.wf(),
        ensures
            final(self)@ == old(self)@.delaying(id, tick, delay, now).system,
            final(agenda)@ == old(agenda)@ + old(self)@.delaying(id, tick, delay, now).tasks,
            call == old(self)@.delaying(id, tick, delay, now).call,
            final(self)@.wf(),
    {
        let ghost before = self@;
        let nanoseconds: u128 = match delay {
            Some(nanoseconds) => nanoseconds,
            None => {
                agenda.push(AffTask::Panicked(id));
                return Some(AffHostCall::Fault(AffFault::Duration));
            },
        };
        if now > self.horizon || nanoseconds > self.horizon - now {
            agenda.push(AffTask::Panicked(id));
            return Some(AffHostCall::Fault(AffFault::Deadline));
        }
        let deadline: u128 = now + nanoseconds;
        if !self.runtime.has_room_for(1) {
            agenda.push(AffTask::Panicked(id));
            return Some(AffHostCall::Fault(AffFault::Exhausted));
        }
        let key: AffTimerKey = (deadline, self.runtime.fresh_id());
        self.timers.register(key, AffTarget::Resolve { fiber: id, tick });
        agenda.push(AffTask::Reply(id, AffReply::Registered(AffCancel::Timer(key))));
        assert forall|other: usize| #[trigger] self@.fibers.contains_key(
            other,
        ) implies self@.fiber_fits(other) by {
            assert(before.fiber_fits(other));
        }
        None
    }

    /// Makes a child of a fiber.
    fn fork(
        &mut self,
        id: usize,
        util: AffUtil<H>,
        supervisor: Option<usize>,
        immediate: bool,
        node: AffNodeRef<H>,
        agenda: &mut Vec<AffTask<H>>,
    ) -> (call: Option<AffHostCall<H>>)
        requires
            old(self)@.wf(),
        ensures
            final(self)@ == old(self)@.forking(id, util, supervisor, immediate, node).system,
            final(agenda)@ == old(agenda)@ + old(self)@.forking(
                id,
                util,
                supervisor,
                immediate,
                node,
            ).tasks,
            call == old(self)@.forking(id, util, supervisor, immediate, node).call,
            final(self)@.wf(),
    {
        if !self.runtime.has_room_for(1) {
            agenda.push(AffTask::Panicked(id));
            return Some(AffHostCall::Fault(AffFault::Exhausted));
        }
        let birth: AffBirth<H> = AffBirth {
            util,
            supervisor,
            owned: true,
            observer: None,
            immediate,
        };
        let child: usize = self.bear(birth, node);
        Some(AffHostCall::Forked { parent: id, child })
    }

    /// Does what fiber `id` has asked for, as far as the runtime can.
    fn perform(
        &mut self,
        id: usize,
        util: AffUtil<H>,
        supervisor: Option<usize>,
        request: AffRequest<H>,
        now: u128,
        agenda: &mut Vec<AffTask<H>>,
    ) -> (call: Option<AffHostCall<H>>)
        requires
            old(self)@.wf(),
        ensures
            final(self)@ == old(self)@.performing(id, util, supervisor, request, now).system,
            final(agenda)@ == old(agenda)@ + old(self)@.performing(
                id,
                util,
                supervisor,
                request,
                now,
            ).tasks,
            call == old(self)@.performing(id, util, supervisor, request, now).call,
            final(self)@.wf(),
    {
        let ghost before = self@;
        match request {
            AffRequest::Fork(immediate, node) => self.fork(
                id,
                util,
                supervisor,
                immediate,
                node,
                agenda,
            ),
            AffRequest::Async(build, tick) => Some(
                AffHostCall::Build { fiber: id, build, tick, util },
            ),
            AffRequest::Native { build: AffNative::Delay(delay), tick, .. } => self.delay(
                id,
                tick,
                delay,
                now,
                agenda,
            ),
            AffRequest::Native { build: AffNative::Halt(run, error), tick, .. } => self.halt(
                id,
                tick,
                run,
                error,
                agenda,
            ),
            AffRequest::Parallel(root, tick) => {
                let target: AffTarget<H> = AffTarget::Resolve { fiber: id, tick };
                match aff_run_parallel(self, util, supervisor, root, target) {
                    Some(token) => {
                        agenda.push(
                            AffTask::Reply(id, AffReply::Registered(AffCancel::Parallel(token))),
                        );
                        None
                    },
                    None => {
                        agenda.push(AffTask::Panicked(id));
                        Some(AffHostCall::Fault(AffFault::Exhausted))
                    },
                }
            },
            AffRequest::Revoke(token) => {
                self.revoke(token);
                agenda.push(AffTask::Reply(id, AffReply::Outcome(Ok(AffValue::Unit))));
                None
            },
            AffRequest::Cancel(AffCancel::Nothing, _) => {
                let node: AffNode<H> = AffNode::Pure(AffValue::Unit);
                agenda.push(AffTask::Reply(id, AffReply::Next(Ok(aff_box(node)))));
                None
            },
            AffRequest::Cancel(AffCancel::Timer(key), _) => {
                self.timers.cancel(key);
                let node: AffNode<H> = AffNode::Pure(AffValue::Unit);
                agenda.push(AffTask::Reply(id, AffReply::Next(Ok(aff_box(node)))));
                proof {
                    lemma_same_fibers(before, self@);
                }
                None
            },
            AffRequest::Cancel(AffCancel::Parallel(run), error) => {
                let node: AffNode<H> = AffNode::NativeAsync {
                    yield_after_registration: false,
                    build: AffNative::Halt(run, error),
                };
                agenda.push(AffTask::Reply(id, AffReply::Next(Ok(aff_box(node)))));
                None
            },
            AffRequest::Cancel(AffCancel::Killing(token), _) => {
                let node: AffNode<H> = AffNode::Revoke(token);
                agenda.push(AffTask::Reply(id, AffReply::Next(Ok(aff_box(node)))));
                None
            },
            AffRequest::Misuse => {
                agenda.push(AffTask::Panicked(id));
                Some(AffHostCall::Fault(AffFault::Misuse))
            },
            _ => Some(AffHostCall::Request(id, request)),
        }
    }

    /// Goes on after a run of the machine of a fiber that was taken out.
    fn turn(
        &mut self,
        fiber: AffFiber<H>,
        turn: AffTurn<H>,
        now: u128,
        agenda: &mut Vec<AffTask<H>>,
        Ghost(before): Ghost<SystemView<H>>,
        Ghost(seen): Ghost<FiberView<H>>,
        Ghost(ended): Ghost<TurnView<H>>,
    ) -> (call: Option<AffHostCall<H>>)
        requires
            before.wf(),
            old(self)@ == (SystemView { fibers: before.fibers.remove(seen.id), ..before }),
            before.fibers.contains_key(seen.id),
            before.fibers[seen.id] == seen,
            seen.started,
            seen.result is None,
            fiber@ == seen.turned(ended),
            turn == turn_of(ended),
            !(turn is Finished) ==> fiber@.wf(),
        ensures
            final(self)@ == before.turning(seen, ended, now).system,
            final(agenda)@ == old(agenda)@ + before.turning(seen, ended, now).tasks,
            call == before.turning(seen, ended, now).call,
            final(self)@.wf(),
    {
        assert(before.fiber_fits(seen.id));
        let id: usize = fiber.id;
        match turn {
            AffTurn::Ask(request) => {
                let util: AffUtil<H> = fiber.util.clone();
                let supervisor: Option<usize> = fiber.supervisor;
                self.put_fiber(fiber, Ghost(before));
                assert(self@ =~= before.with_fiber(seen.turned(ended)));
                self.perform(id, util, supervisor, request, now, agenda)
            },
            AffTurn::Finished(result) => {
                self.end(fiber, result, agenda, Ghost(before));
                None
            },
            AffTurn::Yielded(ready) => {
                self.put_fiber(fiber, Ghost(before));
                assert(self@ =~= before.with_fiber(seen.turned(ended)));
                if ready {
                    Some(AffHostCall::Resume(id))
                } else {
                    None
                }
            },
            _ => {
                self.put_fiber(fiber, Ghost(before));
                assert(self@ =~= before.with_fiber(seen.turned(ended)));
                None
            },
        }
    }

    /// Takes a fiber on.
    fn drive(&mut self, id: usize, now: u128, agenda: &mut Vec<AffTask<H>>) -> (call: Option<
        AffHostCall<H>,
    >)
        requires
            old(self)@.wf(),
        ensures
            final(self)@ == old(self)@.driving(id, now).system,
            final(agenda)@ == old(agenda)@ + old(self)@.driving(id, now).tasks,
            call == old(self)@.driving(id, now).call,
            final(self)@.wf(),
    {
        let ghost before = self@;
        match self.fibers.take(id) {
            Some(mut fiber) => {
                assert(before.fiber_fits(id));
                let ghost seen = fiber@;
                if fiber.running || !fiber.started || fiber.result.is_some() {
                    self.put_fiber(fiber, Ghost(before));
                    assert(self@ =~= before);
                    return None;
                }
                let turn: AffTurn<H> = fiber.drive_inner();
                self.turn(
                    fiber,
                    turn,
                    now,
                    agenda,
                    Ghost(before),
                    Ghost(seen),
                    Ghost(seen.drive().run()),
                )
            },
            None => {
                assert(self@ =~= before);
                None
            },
        }
    }

    /// Hands a reply to the fiber that waits for it.
    fn reply(
        &mut self,
        id: usize,
        reply: AffReply<H>,
        now: u128,
        agenda: &mut Vec<AffTask<H>>,
    ) -> (call: Option<AffHostCall<H>>)
        requires
            old(self)@.wf(),
        ensures
            final(self)@ == old(self)@.replying(id, reply, now).system,
            final(agenda)@ == old(agenda)@ + old(self)@.replying(id, reply, now).tasks,
            call == old(self)@.replying(id, reply, now).call,
            final(self)@.wf(),
    {
        let ghost before = self@;
        let ghost given = reply;
        let mut fiber: AffFiber<H> = match self.fibers.take(id) {
            Some(fiber) => fiber,
            None => {
                assert(self@ =~= before);
                return None;
            },
        };
        assert(before.fiber_fits(id));
        let ghost seen = fiber@;
        let (fits, broken) = match &fiber.driver {
            Some(driver) => {
                let fits: bool = is_reply_for(driver.wait, &reply);
                let awaited: bool = match driver.wait {
                    AffWait::Next | AffWait::Undo => true,
                    _ => false,
                };
                let offered: bool = match &reply {
                    AffReply::Next(Ok(AffValue::Aff(_))) => false,
                    AffReply::Next(Ok(_)) => true,
                    _ => false,
                };
                (fits, awaited && offered)
            },
            None => (false, false),
        };
        if fits {
            let turn: AffTurn<H> = fiber.resume(reply);
            return self.turn(
                fiber,
                turn,
                now,
                agenda,
                Ghost(before),
                Ghost(seen),
                Ghost(seen.resumed(given)),
            );
        }
        self.put_fiber(fiber, Ghost(before));
        assert(self@ =~= before);
        if broken {
            agenda.push(AffTask::Panicked(id));
            Some(AffHostCall::Fault(AffFault::NotAff))
        } else {
            None
        }
    }

    /// Does one task. The tasks that follow from it are put on top of the
    /// agenda. If the embedding program has to do something, that comes first.
    pub fn step(&mut self, task: AffTask<H>, now: u128, agenda: &mut Vec<AffTask<H>>) -> (call: Option<
        AffHostCall<H>,
    >)
        requires
            old(self)@.wf(),
        ensures
            final(self)@ == old(self)@.step(task, now).system,
            final(agenda)@ == old(agenda)@ + old(self)@.step(task, now).tasks,
            call == old(self)@.step(task, now).call,
            final(self)@.wf(),
    {
        match task {
            AffTask::Drive(id) => self.drive(id, now, agenda),
            AffTask::Reply(id, reply) => self.reply(id, reply, now, agenda),
            AffTask::Notify(id) => {
                self.notify(id, agenda);
                None
            },
            AffTask::Tell(notice) => self.tell(notice, agenda),
            AffTask::KillNext(token) => {
                self.kill_next(token, agenda);
                None
            },
            AffTask::Panicked(id) => {
                self.panicked(id, agenda);
                None
            },
        }
    }
}

} // verus!
