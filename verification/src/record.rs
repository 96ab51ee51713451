//! What a program can do with the handle of a fiber.
use crate::fiber::{AffFiber, FiberView};
use crate::moved::word;
use crate::system::{AffSystem, SystemView};
use crate::target::{AffCallback, AffNotice, AffTarget};
use crate::task::AffTask;
use crate::value::AffValue;
use vstd::prelude::*;

verus! {

/// The operations of a handle.
pub enum AffFiberCall<H> {
    Run,
    /// Wait for the result, and start the fiber if nobody has.
    Join(AffValue<H>),
    Kill(AffValue<H>, AffValue<H>),
    /// Wait for the result of a fiber that somebody else starts.
    OnComplete { rethrow: bool, handler: AffValue<H> },
    IsSuspended,
}

#[derive(Clone, Copy, PartialEq, Eq, Structural, Debug)]
pub struct AffFiberAnswer {
    /// The observer that has come, which can be detached again.
    pub join: Option<usize>,
    /// Whether the fiber was waiting to be started or observed.
    pub suspended: bool,
}

/// What an operation on a handle leads to.
#[verifier::ext_equal]
pub struct CallView<H> {
    pub system: SystemView<H>,
    pub tasks: Seq<AffTask<H>>,
    pub answer: AffFiberAnswer,
}

/// The task of telling an observer that came after the end.
pub open spec fn telling_at_once<H>(notice: Option<AffNotice<H>>) -> Seq<AffTask<H>> {
    match notice {
        Some(notice) => seq![AffTask::Tell(notice)],
        None => seq![],
    }
}

impl<H> FiberView<H> {
    /// A callback of the program, told in the form that this fiber's program
    /// gives to results.
    pub open spec fn foreign(self, callback: AffValue<H>) -> AffTarget<H> {
        AffTarget::Foreign { callback, util: self.util }
    }
}

impl<H> SystemView<H> {
    /// The system after fiber `id` has been submitted to the pool, if it has not
    /// been started before.
    pub open spec fn starting(self, id: usize) -> SystemView<H> {
        let fiber = self.fibers[id];
        if fiber.is_suspended() {
            self.with_runtime(self.runtime.entered(id)).with_fiber(fiber.begun()).submitted(id)
        } else {
            self
        }
    }

    /// The system after an observer has come to fiber `id`.
    pub open spec fn observing(self, id: usize, rethrow: bool, callback: AffCallback<H>) -> SystemView<
        H,
    > {
        let fiber = self.fibers[id];
        self.with_runtime(fiber.forgiven(rethrow, self.runtime)).with_fiber(
            fiber.observed(rethrow, callback),
        )
    }

    /// The system after an attempt to kill fiber `id`.
    pub open spec fn striking(self, id: usize, error: AffValue<H>, target: AffTarget<H>) -> SystemView<
        H,
    > {
        let fiber = self.fibers[id];
        self.with_runtime(fiber.registered(self.runtime)).with_fiber(fiber.killed(error, target))
    }

    /// What an operation on the handle of fiber `id` leads to.
    pub open spec fn called(self, id: usize, call: AffFiberCall<H>) -> CallView<H> {
        if !self.fibers.contains_key(id) {
            CallView {
                system: self,
                tasks: seq![],
                answer: AffFiberAnswer { join: None, suspended: false },
            }
        } else {
            let fiber = self.fibers[id];
            let suspended = fiber.is_suspended();
            let silent = AffFiberAnswer { join: None, suspended };
            let observed = AffFiberAnswer { join: Some(fiber.next_join), suspended };
            match call {
                AffFiberCall::Run => CallView {
                    system: self.starting(id),
                    tasks: seq![],
                    answer: silent,
                },
                AffFiberCall::Join(callback) => {
                    let callback = AffCallback::Deliver(fiber.foreign(callback));
                    CallView {
                        system: self.observing(id, false, callback).starting(id),
                        tasks: telling_at_once(fiber.immediate(callback)),
                        answer: observed,
                    }
                },
                AffFiberCall::Kill(error, callback) => {
                    let target = fiber.foreign(callback);
                    CallView {
                        system: self.striking(id, error, target),
                        tasks: seq![
                            if fiber.result is None {
                                AffTask::Drive(id)
                            } else {
                                word(target)
                            },
                        ],
                        answer: observed,
                    }
                },
                AffFiberCall::OnComplete { rethrow, handler } => {
                    let callback = AffCallback::Deliver(fiber.foreign(handler));
                    CallView {
                        system: self.observing(id, rethrow, callback),
                        tasks: telling_at_once(fiber.immediate(callback)),
                        answer: observed,
                    }
                },
                AffFiberCall::IsSuspended => CallView {
                    system: self,
                    tasks: seq![],
                    answer: silent,
                },
            }
        }
    }
}

/// Carries out one operation on the handle of a fiber. A fiber that is gone
/// answers nothing.
pub fn aff_fiber_record<H>(
    system: &mut AffSystem<H>,
    id: usize,
    call: AffFiberCall<H>,
    agenda: &mut Vec<AffTask<H>>,
) -> (answer: AffFiberAnswer)
    requires
        old(system)@.wf(),
    ensures
        final(system)@ == old(system)@.called(id, call).system,
        final(agenda)@ == old(agenda)@ + old(system)@.called(id, call).tasks,
        answer == old(system)@.called(id, call).answer,
        final(system)@.wf(),
{
    let ghost before = system@;
    let ghost given = call;
    let mut fiber: AffFiber<H> = match system.fibers.take(id) {
        Some(fiber) => fiber,
        None => {
            assert(system@ =~= before);
            return AffFiberAnswer { join: None, suspended: false };
        },
    };
    assert(before.fiber_fits(id));
    let ghost seen = fiber@;
    let suspended: bool = fiber.is_suspended();
    let join: Option<usize> = match call {
        AffFiberCall::Run => {
            let claimed: bool = fiber.begin(&mut system.runtime);
            system.put_fiber(fiber, Ghost(before));
            if claimed {
                system.submit(id);
            }
            None
        },
        AffFiberCall::Join(callback) => {
            let target: AffTarget<H> = AffTarget::Foreign { callback, util: fiber.util.clone() };
            let (join, notice) = fiber.observe(
                &mut system.runtime,
                false,
                AffCallback::Deliver(target),
            );
            let claimed: bool = fiber.begin(&mut system.runtime);
            system.put_fiber(fiber, Ghost(before));
            if claimed {
                system.submit(id);
            }
            if let Some(notice) = notice {
                agenda.push(AffTask::Tell(notice));
            }
            Some(join)
        },
        AffFiberCall::Kill(error, callback) => {
            let target: AffTarget<H> = AffTarget::Foreign { callback, util: fiber.util.clone() };
            let (join, notice, drive) = fiber.kill(&mut system.runtime, error, target);
            system.put_fiber(fiber, Ghost(before));
            if let Some(notice) = notice {
                agenda.push(AffTask::Tell(notice));
            }
            if drive {
                agenda.push(AffTask::Drive(id));
            }
            Some(join)
        },
        AffFiberCall::OnComplete { rethrow, handler } => {
            let target: AffTarget<H> = AffTarget::Foreign {
                callback: handler,
                util: fiber.util.clone(),
            };
            let (join, notice) = fiber.observe(
                &mut system.runtime,
                rethrow,
                AffCallback::Deliver(target),
            );
            system.put_fiber(fiber, Ghost(before));
            if let Some(notice) = notice {
                agenda.push(AffTask::Tell(notice));
            }
            Some(join)
        },
        AffFiberCall::IsSuspended => {
            system.put_fiber(fiber, Ghost(before));
            None
        },
    };
    proof {
        assert(system@ =~= before.called(id, given).system);
        assert(agenda@ =~= old(agenda)@ + before.called(id, given).tasks);
    }
    AffFiberAnswer { join, suspended }
}

} // verus!
