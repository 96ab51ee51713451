//! The interpreter of one fiber: its stack, its suspensions and its
//! cancellation.
use crate::timer::AffTimerKey;
use crate::value::{
    aff_unit, unit_cell, AffConditions, AffNative, AffNode, AffNodeRef, AffResult, AffValue,
};
use std::sync::Arc;
use vstd::prelude::*;

verus! {

/// What remains to be done with the result of the running description. The
/// flag says whether the fiber had already been interrupted when the frame was
/// pushed.
pub enum AffFrame<H> {
    Bind(AffValue<H>, bool),
    Mapping(AffValue<H>, bool),
    Catch(AffValue<H>, bool),
    Acquire { options: AffConditions<H>, use_resource: AffValue<H>, interrupted: bool },
    Release { options: AffConditions<H>, resource: AffValue<H>, interrupted: bool },
    Finalized(AffResult<H>),
}

/// How a pending wait is given up.
pub enum AffCancel<H> {
    /// There is nothing to undo.
    Nothing,
    /// A function from the error to the computation that undoes the wait.
    Foreign(AffValue<H>),
    /// An object of the embedding program that undoes the wait.
    Native(Arc<H>),
    /// A timer.
    Timer(AffTimerKey),
    /// A parallel run.
    Parallel(usize),
    /// A wait for fibers that are killed together.
    Killing(usize),
}

pub enum AffStep<H> {
    Node(AffNodeRef<H>),
    Result(AffResult<H>),
    Pending { tick: usize, cancel: AffCancel<H> },
}

pub struct AffMachine<H> {
    pub step: AffStep<H>,
    pub frames: Vec<AffFrame<H>>,
    pub mask: usize,
    pub interrupt: Option<AffValue<H>>,
    pub tick: usize,
}

pub enum AffEvent<H> {
    /// The wait that was registered at this tick is over.
    Resolve(usize, AffResult<H>),
    Kill(AffValue<H>),
}

/// Work that only the embedding program can do.
pub enum AffRequest<H> {
    /// Run an effect; its outcome is the result of the step.
    Effect(AffValue<H>),
    /// Call a function; its outcome is the result of the step.
    Transform(AffValue<H>, AffValue<H>),
    /// Call a function; the computation it returns comes next.
    Continue(AffValue<H>, AffValue<H>),
    /// Call a handler with its argument, and what it returns with the
    /// resource; the computation that comes back is the clean-up.
    Finalize { handler: AffValue<H>, argument: AffValue<H>, resource: AffValue<H> },
    /// Give up a wait; the computation that comes back undoes it.
    Cancel(AffCancel<H>, AffValue<H>),
    /// Make a child fiber, started when the flag is set; its handle is the
    /// result of the step.
    Fork(bool, AffNodeRef<H>),
    /// Call a builder with a callback that resolves this tick, and run the
    /// effect it returns; the outcome is a canceler.
    Async(AffValue<H>, usize),
    /// Register a wait with a callback that resolves this tick. With `yields`
    /// the fiber gives its thread back once the wait is registered.
    Native { build: AffNative<H>, tick: usize, yields: bool },
    /// Run a parallel description whose outcome resolves this tick.
    Parallel(AffNodeRef<H>, usize),
    /// Give up waiting for fibers that are killed together.
    Revoke(usize),
    /// A parallel description stands where only `Sequential` may consume it.
    Misuse,
}

/// A machine with its stack as a sequence.
#[verifier::ext_equal]
pub struct MachineView<H> {
    pub step: AffStep<H>,
    pub frames: Seq<AffFrame<H>>,
    pub mask: nat,
    pub interrupt: Option<AffValue<H>>,
    pub tick: usize,
}

impl<H> View for AffMachine<H> {
    type V = MachineView<H>;

    open spec fn view(&self) -> MachineView<H> {
        MachineView {
            step: self.step,
            frames: self.frames@,
            mask: self.mask as nat,
            interrupt: self.interrupt,
            tick: self.tick,
        }
    }
}

/// Whether a fiber cannot be interrupted while this frame is on its stack.
pub open spec fn is_masking<H>(frame: AffFrame<H>) -> bool {
    frame is Acquire || frame is Finalized
}

/// Whether the fiber had been interrupted when this frame was pushed.
pub open spec fn was_interrupted<H>(frame: AffFrame<H>) -> bool {
    match frame {
        AffFrame::Bind(_, interrupted) => interrupted,
        AffFrame::Mapping(_, interrupted) => interrupted,
        AffFrame::Catch(_, interrupted) => interrupted,
        AffFrame::Acquire { interrupted, .. } => interrupted,
        AffFrame::Release { interrupted, .. } => interrupted,
        AffFrame::Finalized(_) => false,
    }
}

/// The number of masking frames on a stack.
pub open spec fn masking_frames<H>(frames: Seq<AffFrame<H>>) -> nat
    decreases frames.len(),
{
    if frames.len() == 0 {
        0
    } else {
        masking_frames(frames.drop_last()) + if is_masking(frames.last()) {
            1nat
        } else {
            0
        }
    }
}

pub proof fn lemma_masking_push<H>(frames: Seq<AffFrame<H>>, frame: AffFrame<H>)
    ensures
        masking_frames(frames.push(frame)) == masking_frames(frames) + if is_masking(frame) {
            1nat
        } else {
            0
        },
{
    assert(frames.push(frame).drop_last() =~= frames);
}

pub proof fn lemma_masking_bound<H>(frames: Seq<AffFrame<H>>)
    ensures
        masking_frames(frames) <= frames.len(),
    decreases frames.len(),
{
    if frames.len() > 0 {
        lemma_masking_bound(frames.drop_last());
    }
}

/// The number after `n` in a count that begins anew after the last number.
pub open spec fn wrapping_next(n: usize) -> usize {
    if n == usize::MAX {
        0
    } else {
        (n + 1) as usize
    }
}

/// A step that is neither a description nor a suspension, held while the
/// machine is busy.
pub open spec fn idle_step<H>() -> AffStep<H> {
    AffStep::Result(Ok(AffValue::Unit))
}

impl<H> MachineView<H> {
    /// The mask counts the masking frames, no frame remembers an interruption
    /// that has not happened, and a suspension belongs to the current tick.
    pub open spec fn wf(self) -> bool {
        &&& self.mask == masking_frames(self.frames)
        &&& forall|i: int|
            0 <= i < self.frames.len() && was_interrupted(#[trigger] self.frames[i])
                ==> self.interrupt is Some
        &&& self.step matches AffStep::Pending { tick, .. } ==> tick == self.tick
    }

    /// Whether the fiber may go on past a frame that was pushed when its
    /// interruption stood at `interrupted`: it may while it is masked, and
    /// while nothing has interrupted it since.
    pub open spec fn may_proceed(self, interrupted: bool) -> bool {
        self.mask > 0 || interrupted == self.interrupt is Some
    }

    pub open spec fn with_step(self, step: AffStep<H>) -> MachineView<H> {
        MachineView { step, ..self }
    }

    pub open spec fn push(self, frame: AffFrame<H>) -> MachineView<H> {
        MachineView {
            frames: self.frames.push(frame),
            mask: self.mask + if is_masking(frame) {
                1nat
            } else {
                0
            },
            ..self
        }
    }

    /// The machine that is about to begin `node` as the body of a fiber.
    pub open spec fn start(node: AffNodeRef<H>) -> MachineView<H> {
        MachineView {
            step: AffStep::Node(node),
            frames: Seq::empty(),
            mask: 0,
            interrupt: None,
            tick: 0,
        }
    }

    /// The machine with `frame` on its stack again; the mask still counts it.
    pub open spec fn with_frame(self, frame: AffFrame<H>) -> MachineView<H> {
        MachineView { frames: self.frames.push(frame), ..self }
    }

    /// The machine with a frame that has just been taken off its stack counted
    /// out of the mask.
    pub open spec fn leave(self, frame: AffFrame<H>) -> MachineView<H> {
        MachineView {
            mask: (self.mask - if is_masking(frame) {
                1int
            } else {
                0
            }) as nat,
            ..self
        }
    }

    /// The machine after one event, and what has to be asked for.
    pub open spec fn deliver(self, event: AffEvent<H>) -> (MachineView<H>, Option<AffRequest<H>>) {
        match event {
            AffEvent::Resolve(tick, result) => {
                let current = self.step matches AffStep::Pending { tick: waiting, .. } && waiting == tick;
                if current {
                    (MachineView { step: AffStep::Result(result), tick: wrapping_next(self.tick), ..self }, None)
                } else {
                    (self, None)
                }
            },
            AffEvent::Kill(error) => {
                let marked = MachineView {
                    interrupt: if self.interrupt is Some {
                        self.interrupt
                    } else {
                        Some(error)
                    },
                    ..self
                };
                if self.mask > 0 {
                    (marked, None)
                } else {
                    let stopped = MachineView { step: idle_step(), tick: wrapping_next(self.tick), ..marked };
                    match self.step {
                        AffStep::Pending { cancel, .. } => {
                            let undoing = stopped.push(AffFrame::Finalized(Ok(AffValue::Unit)));
                            match cancel {
                                AffCancel::Nothing => (undoing.with_step(AffStep::Node(unit_cell())), None),
                                _ => (undoing, Some(AffRequest::Cancel(cancel, error))),
                            }
                        },
                        _ => (stopped, None),
                    }
                }
            },
        }
    }

    /// The machine after it has begun `node`, and what has to be asked for.
    pub open spec fn instruction(self, node: AffNode<H>) -> (MachineView<H>, Option<AffRequest<H>>) {
        let now = self.interrupt is Some;
        let busy = self.with_step(idle_step());
        match node {
            AffNode::Pure(value) => (self.with_step(AffStep::Result(Ok(value))), None),
            AffNode::Throw(error) => (self.with_step(AffStep::Result(Err(error))), None),
            AffNode::Bind(next, f) => (
                self.push(AffFrame::Bind(f, now)).with_step(AffStep::Node(next)),
                None,
            ),
            AffNode::Mapping(next, f) => (
                self.push(AffFrame::Mapping(f, now)).with_step(AffStep::Node(next)),
                None,
            ),
            AffNode::Catch(next, f) => (
                self.push(AffFrame::Catch(f, now)).with_step(AffStep::Node(next)),
                None,
            ),
            AffNode::Bracket(acquire, options, use_resource) => (
                self.push(AffFrame::Acquire { options, use_resource, interrupted: now }).with_step(
                    AffStep::Node(acquire),
                ),
                None,
            ),
            AffNode::Sync(effect) => (busy, Some(AffRequest::Effect(effect))),
            AffNode::Fork(immediate, next) => (busy, Some(AffRequest::Fork(immediate, next))),
            AffNode::Async(build) => (busy, Some(AffRequest::Async(build, self.tick))),
            AffNode::NativeAsync { yield_after_registration: yields, build } => (
                busy,
                Some(AffRequest::Native { build, tick: self.tick, yields }),
            ),
            AffNode::Revoke(token) => (busy, Some(AffRequest::Revoke(token))),
            AffNode::Sequential(par) => (busy, Some(AffRequest::Parallel(par, self.tick))),
            AffNode::ParMap(..) | AffNode::ParApply(..) | AffNode::ParAlt(..) => (
                busy,
                Some(AffRequest::Misuse),
            ),
        }
    }

    /// The machine after it has handed `result` to a frame that was just taken
    /// off its stack, and what has to be asked for.
    pub open spec fn unwind(self, frame: AffFrame<H>, result: AffResult<H>) -> (
        MachineView<H>,
        Option<AffRequest<H>>,
    ) {
        let now = self.interrupt is Some;
        let left = self.leave(frame);
        let skipped = (left.with_step(AffStep::Result(result)), None);
        let busy = left.with_step(idle_step());
        match (frame, result) {
            (AffFrame::Bind(f, before), Ok(value)) => if self.may_proceed(before) {
                (busy, Some(AffRequest::Continue(f, value)))
            } else {
                skipped
            },
            (AffFrame::Mapping(f, before), Ok(value)) => if self.may_proceed(before) {
                (busy, Some(AffRequest::Transform(f, value)))
            } else {
                skipped
            },
            (AffFrame::Catch(f, before), Err(error)) => if self.may_proceed(before) {
                (busy, Some(AffRequest::Continue(f, error)))
            } else {
                skipped
            },
            (AffFrame::Acquire { options, use_resource, interrupted }, Ok(resource)) => {
                let held = AffFrame::Release { options, resource, interrupted };
                if left.may_proceed(interrupted) {
                    (busy.push(held), Some(AffRequest::Continue(use_resource, resource)))
                } else {
                    (left.push(held).with_step(AffStep::Result(Ok(resource))), None)
                }
            },
            (AffFrame::Release { options, resource, interrupted }, _) => {
                let (handler, argument) = if !self.may_proceed(interrupted) {
                    (options.killed, self.interrupt->0)
                } else {
                    match result {
                        Ok(value) => (options.completed, value),
                        Err(error) => (options.failed, error),
                    }
                };
                (
                    busy.push(AffFrame::Finalized(result)),
                    Some(AffRequest::Finalize { handler, argument, resource }),
                )
            },
            (AffFrame::Finalized(previous), _) => (
                left.with_step(AffStep::Result(previous)),
                None,
            ),
            _ => skipped,
        }
    }
}

/// The machine after it has begun the description behind a shared reference.
pub open spec fn beginning<H>(machine: MachineView<H>, node: AffNodeRef<H>) -> (
    MachineView<H>,
    Option<AffRequest<H>>,
) {
    machine.instruction(node.node)
}

impl<H> AffMachine<H> {
    /// A machine that is about to begin `node`.
    pub fn new(node: AffNodeRef<H>) -> (machine: AffMachine<H>)
        ensures
            machine@ == MachineView::<H>::start(node),
            machine@.wf(),
    {
        AffMachine {
            step: AffStep::Node(node),
            frames: Vec::new(),
            mask: 0,
            interrupt: None,
            tick: 0,
        }
    }

    fn push(&mut self, frame: AffFrame<H>)
        requires
            old(self)@.mask == masking_frames(old(self)@.frames),
        ensures
            final(self)@ == old(self)@.push(frame),
            final(self)@.mask == masking_frames(final(self)@.frames),
    {
        let masking: bool = match &frame {
            AffFrame::Acquire { .. } | AffFrame::Finalized(_) => true,
            _ => false,
        };
        proof {
            lemma_masking_push(self.frames@, frame);
        }
        self.frames.push(frame);
        if masking {
            proof {
                lemma_masking_bound(self.frames@);
            }
            assert(self.frames.len() == self.frames@.len());
            self.mask = self.mask + 1;
        }
    }

    /// Takes one event into account. A resolution counts only for the current
    /// suspension. The first kill is the one that is remembered; it stops the
    /// fiber at once unless the fiber is masked.
    pub fn deliver(&mut self, event: AffEvent<H>) -> (request: Option<AffRequest<H>>)
        requires
            old(self)@.wf(),
        ensures
            (final(self)@, request) == old(self)@.deliver(event),
            final(self)@.wf(),
    {
        match event {
            AffEvent::Resolve(tick, result) => {
                let current: bool = match &self.step {
                    AffStep::Pending { tick: waiting, .. } => *waiting == tick,
                    _ => false,
                };
                if current {
                    self.tick = self.tick.wrapping_add(1);
                    self.step = AffStep::Result(result);
                }
                None
            },
            AffEvent::Kill(error) => {
                if self.interrupt.is_none() {
                    self.interrupt = Some(error.clone());
                }
                if self.mask != 0 {
                    return None;
                }
                let mut previous: AffStep<H> = AffStep::Result(Ok(AffValue::Unit));
                std::mem::swap(&mut self.step, &mut previous);
                self.tick = self.tick.wrapping_add(1);
                match previous {
                    AffStep::Pending { cancel, .. } => {
                        self.push(AffFrame::Finalized(Ok(AffValue::Unit)));
                        match cancel {
                            AffCancel::Nothing => {
                                self.step = AffStep::Node(aff_unit());
                                None
                            },
                            _ => Some(AffRequest::Cancel(cancel, error)),
                        }
                    },
                    _ => None,
                }
            },
        }
    }

    /// Begins one description.
    pub fn instruction(&mut self, node: AffNodeRef<H>) -> (request: Option<AffRequest<H>>)
        requires
            old(self)@.wf(),
        ensures
            (final(self)@, request) == old(self)@.instruction(node.node),
            final(self)@.wf(),
    {
        let interrupted: bool = self.interrupt.is_some();
        let ghost before = self@;
        self.step = AffStep::Result(Ok(AffValue::Unit));
        match &node.node {
            AffNode::Pure(value) => {
                self.step = AffStep::Result(Ok(value.clone()));
                None
            },
            AffNode::Throw(error) => {
                self.step = AffStep::Result(Err(error.clone()));
                None
            },
            AffNode::Bind(next, f) => {
                self.push(AffFrame::Bind(f.clone(), interrupted));
                self.step = AffStep::Node(next.clone());
                None
            },
            AffNode::Mapping(next, f) => {
                self.push(AffFrame::Mapping(f.clone(), interrupted));
                self.step = AffStep::Node(next.clone());
                None
            },
            AffNode::Catch(next, f) => {
                self.push(AffFrame::Catch(f.clone(), interrupted));
                self.step = AffStep::Node(next.clone());
                None
            },
            AffNode::Bracket(acquire, options, use_resource) => {
                self.push(
                    AffFrame::Acquire {
                        options: options.clone(),
                        use_resource: use_resource.clone(),
                        interrupted,
                    },
                );
                self.step = AffStep::Node(acquire.clone());
                None
            },
            AffNode::Sync(effect) => Some(AffRequest::Effect(effect.clone())),
            AffNode::Fork(immediate, next) => Some(AffRequest::Fork(*immediate, next.clone())),
            AffNode::Async(build) => Some(AffRequest::Async(build.clone(), self.tick)),
            AffNode::NativeAsync { yield_after_registration, build } => Some(
                AffRequest::Native {
                    build: build.clone(),
                    tick: self.tick,
                    yields: *yield_after_registration,
                },
            ),
            AffNode::Revoke(token) => Some(AffRequest::Revoke(*token)),
            AffNode::Sequential(par) => Some(AffRequest::Parallel(par.clone(), self.tick)),
            AffNode::ParMap(..) | AffNode::ParApply(..) | AffNode::ParAlt(..) => Some(
                AffRequest::Misuse,
            ),
        }
    }

    /// Hands a result to a frame that has just been taken off the stack.
    pub fn unwind(&mut self, frame: AffFrame<H>, result: AffResult<H>) -> (request: Option<
        AffRequest<H>,
    >)
        requires
            old(self)@.with_frame(frame).wf(),
        ensures
            (final(self)@, request) == old(self)@.unwind(frame, result),
            final(self)@.wf(),
    {
        proof {
            let whole = self@.with_frame(frame);
            lemma_masking_push(self.frames@, frame);
            assert(whole.frames.last() == frame);
            assert forall|i: int|
                0 <= i < self.frames@.len() && was_interrupted(
                    #[trigger] self.frames@[i],
                ) implies self.interrupt is Some by {
                assert(whole.frames[i] == self.frames@[i]);
            }
        }
        let interrupted_now: bool = self.interrupt.is_some();
        self.step = AffStep::Result(Ok(AffValue::Unit));
        match frame {
            AffFrame::Bind(f, before) => {
                match result {
                    Ok(value) if self.mask > 0 || before == interrupted_now => Some(
                        AffRequest::Continue(f, value),
                    ),
                    other => {
                        self.step = AffStep::Result(other);
                        None
                    },
                }
            },
            AffFrame::Mapping(f, before) => {
                match result {
                    Ok(value) if self.mask > 0 || before == interrupted_now => Some(
                        AffRequest::Transform(f, value),
                    ),
                    other => {
                        self.step = AffStep::Result(other);
                        None
                    },
                }
            },
            AffFrame::Catch(f, before) => {
                match result {
                    Err(error) if self.mask > 0 || before == interrupted_now => Some(
                        AffRequest::Continue(f, error),
                    ),
                    other => {
                        self.step = AffStep::Result(other);
                        None
                    },
                }
            },
            AffFrame::Acquire { options, use_resource, interrupted } => {
                self.mask = self.mask - 1;
                match result {
                    Ok(resource) => {
                        self.push(
                            AffFrame::Release { options, resource: resource.clone(), interrupted },
                        );
                        if self.mask > 0 || interrupted == interrupted_now {
                            Some(AffRequest::Continue(use_resource, resource))
                        } else {
                            self.step = AffStep::Result(Ok(resource));
                            None
                        }
                    },
                    Err(error) => {
                        self.step = AffStep::Result(Err(error));
                        None
                    },
                }
            },
            AffFrame::Release { options, resource, interrupted } => {
                let request: AffRequest<H> = match &self.interrupt {
                    Some(error) if self.mask == 0 && !interrupted => AffRequest::Finalize {
                        handler: options.killed,
                        argument: error.clone(),
                        resource,
                    },
                    _ => match &result {
                        Ok(value) => AffRequest::Finalize {
                            handler: options.completed,
                            argument: value.clone(),
                            resource,
                        },
                        Err(error) => AffRequest::Finalize {
                            handler: options.failed,
                            argument: error.clone(),
                            resource,
                        },
                    },
                };
                self.push(AffFrame::Finalized(result));
                Some(request)
            },
            AffFrame::Finalized(previous) => {
                self.mask = self.mask - 1;
                self.step = AffStep::Result(previous);
                None
            },
        }
    }
}

} // verus!
