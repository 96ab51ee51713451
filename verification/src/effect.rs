//! The operations that programs describe their computations with.
use crate::fiber::{AffFiber, FiberView};
use crate::killing::aff_kill_many;
use crate::machine::AffCancel;
use crate::moved::Moved;
use crate::ordered::in_order;
use crate::supervisor::AffSupervisor;
use crate::system::{lemma_same_fibers, AffSystem, SystemView};
use crate::target::AffTarget;
use crate::task::{AffHostCall, AffTask};
use crate::util::{AffCall, AffUtil};
use crate::value::{
    aff_box, aff_new, aff_node, aff_unit, AffConditions, AffNative, AffNode, AffNodeRef, AffValue,
};
use std::collections::VecDeque;
use vstd::prelude::*;

verus! {

/// Whether `value` is this description.
pub open spec fn describes<H>(value: AffValue<H>, node: AffNode<H>) -> bool {
    value matches AffValue::Aff(shared) && shared.node == node
}

/// A computation that ends with `value`.
#[allow(non_snake_case)]
pub fn Effect_Aff__pure<H>(value: AffValue<H>) -> (aff: AffValue<H>)
    ensures
        describes(aff, AffNode::Pure(value)),
{
    aff_box(AffNode::Pure(value))
}

/// A computation that ends with `error`.
#[allow(non_snake_case)]
pub fn Effect_Aff__throwError<H>(error: AffValue<H>) -> (aff: AffValue<H>)
    ensures
        describes(aff, AffNode::Throw(error)),
{
    aff_box(AffNode::Throw(error))
}

/// Runs a computation, and then the one that `next` makes of its value.
#[allow(non_snake_case)]
pub fn Effect_Aff__bind<H>(aff: AffValue<H>, next: AffValue<H>) -> (bound: AffValue<H>)
    requires
        aff is Aff,
    ensures
        describes(bound, AffNode::Bind(aff->Aff_0, next)),
{
    aff_box(AffNode::Bind(aff_node(&aff), next))
}

/// What comes of mapping a computation.
pub enum AffMapped<H> {
    /// The mapped computation.
    Described(AffValue<H>),
    /// The computation is a value already: make this call, and the mapped
    /// computation is the one that ends with what it returns.
    Ready(AffCall<H>),
}

/// Runs a computation and calls `map` with its value. On a computation that is
/// a value already the call is made at once.
#[allow(non_snake_case)]
pub fn Effect_Aff__map<H>(map: AffValue<H>, aff: AffValue<H>) -> (mapped: AffMapped<H>)
    requires
        aff is Aff,
    ensures
        match aff->Aff_0.node {
            AffNode::Pure(value) => mapped == AffMapped::Ready(
                AffCall { function: map, argument: value },
            ),
            _ => mapped matches AffMapped::Described(described) && describes(
                described,
                AffNode::Mapping(aff->Aff_0, map),
            ),
        },
{
    let node = aff_node(&aff);
    if let AffNode::Pure(value) = &node.node {
        return AffMapped::Ready(AffCall { function: map, argument: value.clone() });
    }
    AffMapped::Described(aff_box(AffNode::Mapping(node, map)))
}

/// Runs a computation, and if it fails the one that `handler` makes of its
/// error.
#[allow(non_snake_case)]
pub fn Effect_Aff__catchError<H>(aff: AffValue<H>, handler: AffValue<H>) -> (caught: AffValue<H>)
    requires
        aff is Aff,
    ensures
        describes(caught, AffNode::Catch(aff->Aff_0, handler)),
{
    aff_box(AffNode::Catch(aff_node(&aff), handler))
}

/// Runs a synchronous effect.
#[allow(non_snake_case)]
pub fn Effect_Aff__liftEffect<H>(effect: AffValue<H>) -> (aff: AffValue<H>)
    ensures
        describes(aff, AffNode::Sync(effect)),
{
    aff_box(AffNode::Sync(effect))
}

/// Makes a child fiber, and starts it if `immediate` is set.
#[allow(non_snake_case)]
pub fn Effect_Aff__fork<H>(immediate: bool, aff: AffValue<H>) -> (forked: AffValue<H>)
    requires
        aff is Aff,
    ensures
        describes(forked, AffNode::Fork(immediate, aff->Aff_0)),
{
    aff_box(AffNode::Fork(immediate, aff_node(&aff)))
}

/// Waits for a callback that `build` registers.
#[allow(non_snake_case)]
pub fn Effect_Aff_makeAff<H>(build: AffValue<H>) -> (aff: AffValue<H>)
    ensures
        describes(aff, AffNode::Async(build)),
{
    aff_box(AffNode::Async(build))
}

/// Acquires a resource, uses it, and lets go of it in any case.
#[allow(non_snake_case)]
pub fn Effect_Aff_generalBracket<H>(
    acquire: AffValue<H>,
    conditions: AffConditions<H>,
    use_resource: AffValue<H>,
) -> (aff: AffValue<H>)
    requires
        acquire is Aff,
    ensures
        describes(aff, AffNode::Bracket(acquire->Aff_0, conditions, use_resource)),
{
    aff_box(AffNode::Bracket(aff_node(&acquire), conditions, use_resource))
}

impl<H> SystemView<H> {
    /// The system with a fiber that is nobody's child and has not started. It
    /// gets the next identifier.
    pub open spec fn making(self, util: AffUtil<H>, supervisor: Option<usize>, aff: AffValue<H>) -> SystemView<
        H,
    > {
        self.with_runtime(self.runtime.with_next_id()).with_fiber(
            FiberView::fresh(self.runtime.next_id, util, supervisor, true, aff->Aff_0),
        )
    }
}

fn make_fiber<H>(
    system: &mut AffSystem<H>,
    util: AffUtil<H>,
    supervisor: Option<usize>,
    aff: AffValue<H>,
) -> (id: usize)
    requires
        aff is Aff,
        old(system)@.wf(),
        old(system)@.runtime.has_room(),
    ensures
        id == old(system)@.runtime.next_id,
        final(system)@ == old(system)@.making(util, supervisor, aff),
        final(system)@.wf(),
{
    let ghost before = system@;
    let fiber: AffFiber<H> = AffFiber::new(
        &mut system.runtime,
        util,
        supervisor,
        true,
        aff_node(&aff),
    );
    let id: usize = fiber.id;
    proof {
        if before.fibers.contains_key(id) {
            assert(before.fiber_fits(id));
        }
        assert(system@.fibers =~= before.fibers.remove(id));
    }
    system.put_fiber(fiber, Ghost(before));
    id
}

/// A fiber that nobody supervises and that has not started. There is none if no
/// identifier is left.
#[allow(non_snake_case)]
pub fn Effect_Aff__makeFiber<H>(
    system: &mut AffSystem<H>,
    util: AffUtil<H>,
    aff: AffValue<H>,
) -> (fiber: Option<usize>)
    requires
        aff is Aff,
        old(system)@.wf(),
    ensures
        match fiber {
            Some(id) => old(system)@.runtime.has_room() && id == old(system)@.runtime.next_id
                && final(system)@ == old(system)@.making(util, None, aff),
            None => !old(system)@.runtime.has_room() && final(system)@ == old(system)@,
        },
        final(system)@.wf(),
{
    if system.runtime.has_room_for(1) {
        Some(make_fiber(system, util, None, aff))
    } else {
        None
    }
}

/// A fiber that has not started, together with the supervisor of the fibers
/// that it will make. The supervisor is found under the identifier of the
/// fiber.
#[allow(non_snake_case)]
pub fn Effect_Aff__makeSupervisedFiber<H>(
    system: &mut AffSystem<H>,
    util: AffUtil<H>,
    aff: AffValue<H>,
) -> (fiber: Option<usize>)
    requires
        aff is Aff,
        old(system)@.wf(),
    ensures
        match fiber {
            Some(id) => old(system)@.runtime.has_room() && id == old(system)@.runtime.next_id
                && final(system)@ == (SystemView {
                supervisors: old(system)@.supervisors.insert(id, Set::empty()),
                ..old(system)@.making(util, Some(id), aff)
            }),
            None => !old(system)@.runtime.has_room() && final(system)@ == old(system)@,
        },
        final(system)@.wf(),
{
    if system.runtime.has_room_for(1) {
        let key: usize = system.runtime.next_id;
        let id: usize = make_fiber(system, util, Some(key), aff);
        let ghost here = system@;
        system.supervisors.put(id, AffSupervisor::new());
        proof {
            lemma_same_fibers(here, system@);
        }
        Some(id)
    } else {
        None
    }
}

/// Waits for this many nanoseconds. The wait always gives back its thread, even
/// when it is over as soon as it is registered. Without a number the wait would
/// be longer than a duration can be; registering it is then a panic.
#[allow(non_snake_case)]
pub fn Effect_Aff__delay<H>(nanoseconds: Option<u128>) -> (aff: AffValue<H>)
    ensures
        describes(
            aff,
            AffNode::NativeAsync {
                yield_after_registration: true,
                build: AffNative::Delay(nanoseconds),
            },
        ),
{
    aff_box(
        AffNode::NativeAsync {
            yield_after_registration: true,
            build: AffNative::Delay(nanoseconds),
        },
    )
}

#[allow(non_snake_case)]
pub fn Effect_Aff__parAffMap<H>(map: AffValue<H>, aff: AffValue<H>) -> (mapped: AffValue<H>)
    requires
        aff is Aff,
    ensures
        describes(mapped, AffNode::ParMap(map, aff->Aff_0)),
{
    aff_box(AffNode::ParMap(map, aff_node(&aff)))
}

/// Runs both branches; the value of the left one is called with that of the
/// right one.
#[allow(non_snake_case)]
pub fn Effect_Aff__parAffApply<H>(left: AffValue<H>, right: AffValue<H>) -> (aff: AffValue<H>)
    requires
        left is Aff,
        right is Aff,
    ensures
        describes(aff, AffNode::ParApply(left->Aff_0, right->Aff_0)),
{
    aff_box(AffNode::ParApply(aff_node(&left), aff_node(&right)))
}

/// Runs both branches; the first value that comes wins.
#[allow(non_snake_case)]
pub fn Effect_Aff__parAffAlt<H>(left: AffValue<H>, right: AffValue<H>) -> (aff: AffValue<H>)
    requires
        left is Aff,
        right is Aff,
    ensures
        describes(aff, AffNode::ParAlt(left->Aff_0, right->Aff_0)),
{
    aff_box(AffNode::ParAlt(aff_node(&left), aff_node(&right)))
}

/// Runs a parallel description as one step of a sequential computation.
#[allow(non_snake_case)]
pub fn Effect_Aff__sequential<H>(aff: AffValue<H>) -> (sequential: AffValue<H>)
    requires
        aff is Aff,
    ensures
        describes(sequential, AffNode::Sequential(aff->Aff_0)),
{
    aff_box(AffNode::Sequential(aff_node(&aff)))
}

/// Those of the fibers that still exist.
pub open spec fn living<H>(fibers: Map<usize, FiberView<H>>, ids: Seq<usize>) -> Seq<usize>
    decreases ids.len(),
{
    if ids.len() == 0 {
        seq![]
    } else {
        let before = living(fibers, ids.drop_last());
        if fibers.contains_key(ids.last()) {
            before.push(ids.last())
        } else {
            before
        }
    }
}

impl<H> SystemView<H> {
    /// The fibers under a supervisor, in the order in which they were made.
    pub open spec fn children(self, supervisor: usize) -> Seq<usize> {
        if self.supervisors.contains_key(supervisor) {
            living(self.fibers, in_order(self.supervisors[supervisor]))
        } else {
            seq![]
        }
    }

    /// What the end of a supervised computation leads to: all its fibers are
    /// killed, and `callback` is run when the last one has ended.
    pub open spec fn killing_all(self, error: AffValue<H>, supervisor: usize, callback: AffValue<H>) -> Moved<
        H,
    > {
        self.killing(self.children(supervisor), error, AffTarget::Effect(callback))
    }
}

/// Kills all fibers under a supervisor. What comes back is the computation that
/// gives up waiting for them, and what the embedding program has to do first.
#[allow(non_snake_case)]
pub fn Effect_Aff__killAll<H>(
    system: &mut AffSystem<H>,
    error: AffValue<H>,
    supervisor: usize,
    callback: AffValue<H>,
    agenda: &mut Vec<AffTask<H>>,
) -> (killing: (AffNodeRef<H>, Option<AffHostCall<H>>))
    requires
        old(system)@.wf(),
    ensures
        final(system)@ == old(system)@.killing_all(error, supervisor, callback).system,
        final(agenda)@ == old(agenda)@ + old(system)@.killing_all(
            error,
            supervisor,
            callback,
        ).tasks,
        killing.1 == old(system)@.killing_all(error, supervisor, callback).call,
        killing.0.node == if old(system)@.children(supervisor).len() == 0 {
            AffNode::<H>::Pure(AffValue::Unit)
        } else {
            AffNode::<H>::Revoke(old(system)@.next_token)
        },
        final(system)@.wf(),
{
    let mut victims: VecDeque<usize> = VecDeque::new();
    if let Some(members) = system.supervisors.get(supervisor) {
        let ids: Vec<usize> = members.members();
        let mut i: usize = 0;
        assert(ids@.take(0) =~= seq![]);
        while i < ids.len()
            invariant
                i <= ids.len(),
                victims@ == living(system@.fibers, ids@.take(i as int)),
            decreases ids.len() - i,
        {
            assert(ids@.take(i + 1).drop_last() =~= ids@.take(i as int));
            if system.fibers.contains(ids[i]) {
                victims.push_back(ids[i]);
            }
            i = i + 1;
        }
        assert(ids@.take(i as int) =~= ids@);
    }
    assert(victims@ =~= system@.children(supervisor));
    let canceler: AffNodeRef<H> = if victims.len() == 0 {
        aff_unit()
    } else {
        aff_cancel_wait(system.next_token)
    };
    let call: Option<AffHostCall<H>> = aff_kill_many(
        system,
        victims,
        error,
        AffTarget::Effect(callback),
        agenda,
    );
    (canceler, call)
}

/// The computation that gives up waiting for fibers that are killed together.
/// It removes the observers that wait for them; it revives none of them.
pub fn aff_cancel_wait<H>(token: usize) -> (canceler: AffNodeRef<H>)
    ensures
        canceler.node == AffNode::<H>::Revoke(token),
{
    aff_new(AffNode::Revoke(token))
}

/// A canceler for a wait that has nothing to undo.
pub fn aff_no_cancel<H>() -> (cancel: AffCancel<H>)
    ensures
        cancel is Nothing,
{
    AffCancel::Nothing
}

} // verus!
