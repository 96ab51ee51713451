//! What descriptions mean: what a machine does when it begins one, when a frame
//! of its stack gets a result, and when an event comes to it.
use crate::machine::{AffEvent, AffFrame, AffRequest, AffStep, MachineView};
use crate::value::{AffConditions, AffNative, AffNode, AffNodeRef, AffResult, AffValue};
use vstd::prelude::*;

verus! {

/// Whether two machines agree in everything but what they are doing.
pub open spec fn differ_in_step<H>(a: MachineView<H>, b: MachineView<H>) -> bool {
    &&& a.frames == b.frames
    &&& a.mask == b.mask
    &&& a.interrupt == b.interrupt
    &&& a.tick == b.tick
}

/// Whether `b` is `a` with one more frame on its stack, which adds so much to the
/// mask.
pub open spec fn has_pushed<H>(
    a: MachineView<H>,
    b: MachineView<H>,
    frame: AffFrame<H>,
    masks: int,
) -> bool {
    &&& b.frames.len() == a.frames.len() + 1
    &&& b.frames[a.frames.len() as int] == frame
    &&& forall|i: int| 0 <= i < a.frames.len() ==> b.frames[i] == a.frames[i]
    &&& b.mask == a.mask + masks
    &&& b.interrupt == a.interrupt
    &&& b.tick == a.tick
}

/// A value is the result of the computation that returns it, and an error of the
/// one that throws it.
pub proof fn law_pure_and_throw<H>(machine: MachineView<H>, value: AffValue<H>)
    ensures
        machine.instruction(AffNode::Pure(value)).1 is None,
        machine.instruction(AffNode::Pure(value)).0.step == AffStep::<H>::Result(Ok(value)),
        differ_in_step(machine, machine.instruction(AffNode::Pure(value)).0),
        machine.instruction(AffNode::Throw(value)).1 is None,
        machine.instruction(AffNode::Throw(value)).0.step == AffStep::<H>::Result(Err(value)),
        differ_in_step(machine, machine.instruction(AffNode::Throw(value)).0),
{
}

/// A computation that is continued, mapped or guarded is run first; its function
/// waits on top of the stack, and remembers whether the fiber had been killed.
pub proof fn law_functions_wait_on_the_stack<H>(
    machine: MachineView<H>,
    first: AffNodeRef<H>,
    f: AffValue<H>,
)
    ensures
        ({
            let (next, request) = machine.instruction(AffNode::Bind(first, f));
            &&& request is None
            &&& next.step == AffStep::<H>::Node(first)
            &&& has_pushed(machine, next, AffFrame::Bind(f, machine.interrupt is Some), 0)
        }),
        ({
            let (next, request) = machine.instruction(AffNode::Mapping(first, f));
            &&& request is None
            &&& next.step == AffStep::<H>::Node(first)
            &&& has_pushed(machine, next, AffFrame::Mapping(f, machine.interrupt is Some), 0)
        }),
        ({
            let (next, request) = machine.instruction(AffNode::Catch(first, f));
            &&& request is None
            &&& next.step == AffStep::<H>::Node(first)
            &&& has_pushed(machine, next, AffFrame::Catch(f, machine.interrupt is Some), 0)
        }),
{
}

/// A bracket first runs the computation that acquires its resource, and protects
/// it from kills.
pub proof fn law_bracket_begins_with_its_resource<H>(
    machine: MachineView<H>,
    acquire: AffNodeRef<H>,
    options: AffConditions<H>,
    use_resource: AffValue<H>,
)
    ensures
        ({
            let (next, request) = machine.instruction(
                AffNode::Bracket(acquire, options, use_resource),
            );
            &&& request is None
            &&& next.step == AffStep::<H>::Node(acquire)
            &&& has_pushed(
                machine,
                next,
                AffFrame::Acquire { options, use_resource, interrupted: machine.interrupt is Some },
                1,
            )
        }),
{
}

/// What only the outside can do is asked for at once, with exactly what the
/// description holds and for the current tick; nothing else happens to the fiber.
pub proof fn law_outside_work_is_asked_for<H>(
    machine: MachineView<H>,
    value: AffValue<H>,
    node: AffNodeRef<H>,
    flag: bool,
    build: AffNative<H>,
    token: usize,
)
    ensures
        ({
            let (next, request) = machine.instruction(AffNode::Sync(value));
            request == Some(AffRequest::Effect(value)) && differ_in_step(machine, next)
                && !(next.step is Pending)
        }),
        ({
            let (next, request) = machine.instruction(AffNode::Async(value));
            request == Some(AffRequest::Async(value, machine.tick)) && differ_in_step(machine, next)
                && !(next.step is Pending)
        }),
        ({
            let (next, request) = machine.instruction(AffNode::Fork(flag, node));
            request == Some(AffRequest::<H>::Fork(flag, node)) && differ_in_step(machine, next)
                && !(next.step is Pending)
        }),
        ({
            let (next, request) = machine.instruction(
                AffNode::NativeAsync { yield_after_registration: flag, build },
            );
            request == Some(AffRequest::Native { build, tick: machine.tick, yields: flag })
                && differ_in_step(machine, next) && !(next.step is Pending)
        }),
        ({
            let (next, request) = machine.instruction(AffNode::Sequential(node));
            request == Some(AffRequest::<H>::Parallel(node, machine.tick)) && differ_in_step(
                machine,
                next,
            ) && !(next.step is Pending)
        }),
        ({
            let (next, request) = machine.instruction(AffNode::Revoke(token));
            request == Some(AffRequest::<H>::Revoke(token)) && differ_in_step(machine, next)
                && !(next.step is Pending)
        }),
{
}

/// A parallel description stands for a computation only through `Sequential`.
pub proof fn law_parallel_parts_are_no_computations<H>(
    machine: MachineView<H>,
    f: AffValue<H>,
    left: AffNodeRef<H>,
    right: AffNodeRef<H>,
)
    ensures
        machine.instruction(AffNode::ParMap(f, left)).1 == Some(AffRequest::<H>::Misuse),
        machine.instruction(AffNode::ParApply(left, right)).1 == Some(AffRequest::<H>::Misuse),
        machine.instruction(AffNode::ParAlt(left, right)).1 == Some(AffRequest::<H>::Misuse),
        differ_in_step(machine, machine.instruction(AffNode::ParMap(f, left)).0),
        differ_in_step(machine, machine.instruction(AffNode::ParApply(left, right)).0),
        differ_in_step(machine, machine.instruction(AffNode::ParAlt(left, right)).0),
{
}

/// An error passes the functions that wait for a value untouched: it is neither
/// mapped nor continued, and the program is asked for nothing.
pub proof fn law_error_passes_functions<H>(
    machine: MachineView<H>,
    f: AffValue<H>,
    before: bool,
    error: AffValue<H>,
)
    ensures
        ({
            let (next, request) = machine.unwind(AffFrame::Mapping(f, before), Err(error));
            &&& request is None
            &&& next.step == AffStep::<H>::Result(Err(error))
            &&& differ_in_step(machine, next)
        }),
        ({
            let (next, request) = machine.unwind(AffFrame::Bind(f, before), Err(error));
            &&& request is None
            &&& next.step == AffStep::<H>::Result(Err(error))
            &&& differ_in_step(machine, next)
        }),
{
}

/// A value passes a handler of errors untouched.
pub proof fn law_value_passes_handlers<H>(
    machine: MachineView<H>,
    f: AffValue<H>,
    before: bool,
    value: AffValue<H>,
)
    ensures
        ({
            let (next, request) = machine.unwind(AffFrame::Catch(f, before), Ok(value));
            &&& request is None
            &&& next.step == AffStep::<H>::Result(Ok(value))
            &&& differ_in_step(machine, next)
        }),
{
}

/// A value goes to the function that waits for it, and an error to its handler,
/// while the fiber is protected and while nothing has killed it since the function
/// was put on the stack. Otherwise the result passes them.
pub proof fn law_results_reach_their_functions<H>(
    machine: MachineView<H>,
    f: AffValue<H>,
    before: bool,
    x: AffValue<H>,
)
    ensures
        ({
            let goes_on = machine.mask >= 1 || before == (machine.interrupt is Some);
            let (bound, to_bind) = machine.unwind(AffFrame::Bind(f, before), Ok(x));
            let (mapped, to_map) = machine.unwind(AffFrame::Mapping(f, before), Ok(x));
            let (caught, to_catch) = machine.unwind(AffFrame::Catch(f, before), Err(x));
            &&& differ_in_step(machine, bound)
            &&& differ_in_step(machine, mapped)
            &&& differ_in_step(machine, caught)
            &&& goes_on ==> {
                &&& to_bind == Some(AffRequest::Continue(f, x))
                &&& to_map == Some(AffRequest::Transform(f, x))
                &&& to_catch == Some(AffRequest::Continue(f, x))
                &&& !(bound.step is Pending) && !(mapped.step is Pending) && !(caught.step is Pending)
            }
            &&& !goes_on ==> {
                &&& to_bind is None && to_map is None && to_catch is None
                &&& bound.step == AffStep::<H>::Result(Ok(x))
                &&& mapped.step == AffStep::<H>::Result(Ok(x))
                &&& caught.step == AffStep::<H>::Result(Err(x))
            }
        }),
{
}

/// A resource that was acquired is put on the stack to be let go of, and no longer
/// protects from kills. The computation that uses it is asked for with exactly this
/// resource, unless the fiber has been killed meanwhile and nothing else protects
/// it.
pub proof fn law_use_gets_the_resource<H>(
    machine: MachineView<H>,
    options: AffConditions<H>,
    use_resource: AffValue<H>,
    interrupted: bool,
    resource: AffValue<H>,
)
    requires
        machine.mask >= 1,
    ensures
        ({
            let (next, request) = machine.unwind(
                AffFrame::Acquire { options, use_resource, interrupted },
                Ok(resource),
            );
            &&& has_pushed(
                machine,
                next,
                AffFrame::Release { options, resource, interrupted },
                -1,
            )
            &&& machine.mask > 1 || interrupted == (machine.interrupt is Some) ==> request == Some(
                AffRequest::Continue(use_resource, resource),
            ) && !(next.step is Pending)
            &&& machine.mask == 1 && interrupted != (machine.interrupt is Some) ==> request is None
                && next.step == AffStep::<H>::Result(Ok(resource))
        }),
{
}

/// A bracket whose resource could not be acquired fails with that error: there is
/// nothing to use and nothing to let go of.
pub proof fn law_failed_acquisition_fails_the_bracket<H>(
    machine: MachineView<H>,
    options: AffConditions<H>,
    use_resource: AffValue<H>,
    interrupted: bool,
    error: AffValue<H>,
)
    requires
        machine.mask >= 1,
    ensures
        ({
            let (next, request) = machine.unwind(
                AffFrame::Acquire { options, use_resource, interrupted },
                Err(error),
            );
            &&& request is None
            &&& next.step == AffStep::<H>::Result(Err(error))
            &&& next.frames == machine.frames
            &&& next.mask == machine.mask - 1
            &&& next.interrupt == machine.interrupt
            &&& next.tick == machine.tick
        }),
{
}

/// A resource is let go of in the way that fits: with the value that its use
/// returned, with the error that its use failed with, or, if a kill has stopped the
/// use, with the error of the first kill. The result of the use is kept below, and
/// nothing disturbs the clean-up.
pub proof fn law_release_fits_the_outcome<H>(
    machine: MachineView<H>,
    options: AffConditions<H>,
    resource: AffValue<H>,
    interrupted: bool,
    result: AffResult<H>,
)
    ensures
        ({
            let (next, request) = machine.unwind(
                AffFrame::Release { options, resource, interrupted },
                result,
            );
            let undisturbed = machine.mask >= 1 || interrupted == (machine.interrupt is Some);
            &&& has_pushed(machine, next, AffFrame::Finalized(result), 1)
            &&& !(next.step is Pending)
            &&& undisturbed && result is Ok ==> request == Some(
                AffRequest::Finalize { handler: options.completed, argument: result->Ok_0, resource },
            )
            &&& undisturbed && result is Err ==> request == Some(
                AffRequest::Finalize { handler: options.failed, argument: result->Err_0, resource },
            )
            &&& !undisturbed && machine.interrupt is Some ==> request == Some(
                AffRequest::Finalize {
                    handler: options.killed,
                    argument: machine.interrupt->0,
                    resource,
                },
            )
        }),
{
}

/// The result that stood before a clean-up is the one that counts after it,
/// whatever the clean-up came to.
pub proof fn law_clean_up_keeps_the_result<H>(
    machine: MachineView<H>,
    kept: AffResult<H>,
    result: AffResult<H>,
)
    requires
        machine.mask >= 1,
    ensures
        ({
            let (next, request) = machine.unwind(AffFrame::Finalized(kept), result);
            &&& request is None
            &&& next.step == AffStep::<H>::Result(kept)
            &&& next.frames == machine.frames
            &&& next.mask == machine.mask - 1
            &&& next.interrupt == machine.interrupt
            &&& next.tick == machine.tick
        }),
{
}

/// A wait ends with the result that is handed to it at its tick, and with nothing
/// else; then the next tick begins.
pub proof fn law_wait_ends_with_its_result<H>(
    machine: MachineView<H>,
    tick: usize,
    result: AffResult<H>,
)
    ensures
        ({
            let (next, request) = machine.deliver(AffEvent::Resolve(tick, result));
            let awaited = machine.step is Pending && machine.step->tick == tick;
            &&& request is None
            &&& next.frames == machine.frames
            &&& next.mask == machine.mask
            &&& next.interrupt == machine.interrupt
            &&& awaited ==> next.step == AffStep::Result(result)
            &&& awaited && machine.tick < usize::MAX ==> next.tick == machine.tick + 1
            &&& awaited && machine.tick == usize::MAX ==> next.tick == 0
            &&& !awaited ==> next.step == machine.step && next.tick == machine.tick
        }),
{
}

/// What a kill does to a fiber that nothing protects: it is remembered if it is the
/// first, the next tick begins, and what the fiber was about to do is dropped. A
/// wait is undone under protection, with the error of this very kill.
pub proof fn law_kill_stops_an_unprotected_fiber<H>(machine: MachineView<H>, error: AffValue<H>)
    requires
        machine.mask == 0,
    ensures
        ({
            let (next, request) = machine.deliver(AffEvent::Kill(error));
            &&& machine.interrupt is Some ==> next.interrupt == machine.interrupt
            &&& machine.interrupt is None ==> next.interrupt == Some(error)
            &&& machine.tick < usize::MAX ==> next.tick == machine.tick + 1
            &&& machine.tick == usize::MAX ==> next.tick == 0
            &&& !(machine.step is Pending) ==> {
                &&& request is None
                &&& next.frames == machine.frames
                &&& next.mask == 0
                &&& next.step == AffStep::<H>::Result(Ok(AffValue::Unit))
            }
            &&& machine.step matches AffStep::Pending { cancel, .. } ==> {
                &&& next.frames.len() == machine.frames.len() + 1
                &&& next.frames[machine.frames.len() as int] == AffFrame::<H>::Finalized(
                    Ok(AffValue::Unit),
                )
                &&& forall|i: int|
                    0 <= i < machine.frames.len() ==> next.frames[i] == machine.frames[i]
                &&& next.mask == 1
                &&& !(cancel is Nothing) ==> request == Some(AffRequest::Cancel(cancel, error))
                    && !(next.step is Pending)
                &&& cancel is Nothing ==> request is None && next.step is Node
                    && next.step->Node_0.node == AffNode::<H>::Pure(AffValue::Unit)
            }
        }),
{
}

/// What a kill does to a fiber that is protected: it is remembered if it is the
/// first, and everything else goes on.
pub proof fn law_kill_waits_for_protection_to_end<H>(machine: MachineView<H>, error: AffValue<H>)
    requires
        machine.mask > 0,
    ensures
        ({
            let (next, request) = machine.deliver(AffEvent::Kill(error));
            &&& request is None
            &&& machine.interrupt is Some ==> next.interrupt == machine.interrupt
            &&& machine.interrupt is None ==> next.interrupt == Some(error)
            &&& next.step == machine.step
            &&& next.frames == machine.frames
            &&& next.mask == machine.mask
            &&& next.tick == machine.tick
        }),
{
}

/// A fiber begins with its body, an empty stack, and neither protection nor kill.
pub proof fn law_fiber_begins_with_its_body<H>(node: AffNodeRef<H>)
    ensures
        MachineView::<H>::start(node).step == AffStep::<H>::Node(node),
        MachineView::<H>::start(node).frames.len() == 0,
        MachineView::<H>::start(node).mask == 0,
        MachineView::<H>::start(node).interrupt is None,
        MachineView::<H>::start(node).tick == 0,
{
}

} // verus!
