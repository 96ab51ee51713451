//! Values, descriptions of asynchronous computations and their release.
use crate::fault::AffFault;
use std::sync::Arc;
use vstd::prelude::*;

verus! {

/// A value that flows through a computation. `Host` holds whatever belongs to
/// the embedding program: data, functions and effects alike.
pub enum AffValue<H> {
    Unit,
    Aff(AffNodeRef<H>),
    /// An error that the runtime itself brings up.
    Fault(AffFault),
    Host(Arc<H>),
}

/// What a computation ends with: a value, or an error.
pub type AffResult<H> = Result<AffValue<H>, AffValue<H>>;

pub type AffNodeRef<H> = Arc<AffCell<H>>;

impl<H> Clone for AffValue<H> {
    fn clone(&self) -> (value: AffValue<H>)
        ensures
            value == *self,
    {
        match self {
            AffValue::Unit => AffValue::Unit,
            AffValue::Aff(node) => AffValue::Aff(node.clone()),
            AffValue::Fault(fault) => AffValue::Fault(*fault),
            AffValue::Host(host) => AffValue::Host(host.clone()),
        }
    }
}

pub fn share_result<H>(result: &AffResult<H>) -> (shared: AffResult<H>)
    ensures
        shared == *result,
{
    match result {
        Ok(value) => Ok(value.clone()),
        Err(error) => Err(error.clone()),
    }
}

/// The three ways in which a bracket can let go of its resource. Each is a
/// function of two arguments, the second of which is the resource.
pub struct AffConditions<H> {
    pub killed: AffValue<H>,
    pub failed: AffValue<H>,
    pub completed: AffValue<H>,
}

impl<H> Clone for AffConditions<H> {
    fn clone(&self) -> (conditions: AffConditions<H>)
        ensures
            conditions == *self,
    {
        AffConditions {
            killed: self.killed.clone(),
            failed: self.failed.clone(),
            completed: self.completed.clone(),
        }
    }
}

/// A wait that the runtime itself knows how to register.
pub enum AffNative<H> {
    /// Wait for this many nanoseconds; without a number, for longer than a
    /// duration can be.
    Delay(Option<u128>),
    /// Stop a parallel run, kill its fibers with this error and wait for them.
    Halt(usize, AffValue<H>),
    /// Hand the callback to this object of the embedding program.
    Host(Arc<H>),
}

impl<H> Clone for AffNative<H> {
    fn clone(&self) -> (native: AffNative<H>)
        ensures
            native == *self,
    {
        match self {
            AffNative::Delay(nanoseconds) => AffNative::Delay(*nanoseconds),
            AffNative::Halt(run, error) => AffNative::Halt(*run, error.clone()),
            AffNative::Host(host) => AffNative::Host(host.clone()),
        }
    }
}

/// A reusable description. Only a fiber owns a mutable execution stack.
pub enum AffNode<H> {
    Pure(AffValue<H>),
    Throw(AffValue<H>),
    Bind(AffNodeRef<H>, AffValue<H>),
    Mapping(AffNodeRef<H>, AffValue<H>),
    Catch(AffNodeRef<H>, AffValue<H>),
    Sync(AffValue<H>),
    Async(AffValue<H>),
    NativeAsync { yield_after_registration: bool, build: AffNative<H> },
    Bracket(AffNodeRef<H>, AffConditions<H>, AffValue<H>),
    Fork(bool, AffNodeRef<H>),
    Sequential(AffNodeRef<H>),
    ParMap(AffValue<H>, AffNodeRef<H>),
    ParApply(AffNodeRef<H>, AffNodeRef<H>),
    ParAlt(AffNodeRef<H>, AffNodeRef<H>),
    /// Give up waiting for the fibers that are killed together under this
    /// token.
    Revoke(usize),
}

/// A description behind a shared reference. Releasing a deep one must not use
/// the call stack, which is what its destructor is for.
pub struct AffCell<H> {
    pub node: AffNode<H>,
}

/// The description of a computation that does nothing.
pub open spec fn unit_cell<H>() -> AffNodeRef<H> {
    Arc::new(AffCell { node: AffNode::Pure(AffValue::Unit) })
}

pub fn aff_new<H>(node: AffNode<H>) -> (shared: AffNodeRef<H>)
    ensures
        shared.node == node,
{
    Arc::new(AffCell { node })
}

/// A description as a value.
pub fn aff_box<H>(node: AffNode<H>) -> (value: AffValue<H>)
    ensures
        value matches AffValue::Aff(shared) && shared.node == node,
{
    AffValue::Aff(aff_new(node))
}

/// The description in a value that holds one.
pub fn aff_node<H>(value: &AffValue<H>) -> (shared: AffNodeRef<H>)
    requires
        *value is Aff,
    ensures
        *value == AffValue::Aff(shared),
{
    match value {
        AffValue::Aff(shared) => shared.clone(),
        _ => aff_unit(),
    }
}

pub fn aff_unit<H>() -> (shared: AffNodeRef<H>)
    ensures
        shared == unit_cell::<H>(),
{
    aff_new(AffNode::Pure(AffValue::Unit))
}

/// The number of descriptions that `node` is built of, itself included.
pub open spec fn node_size<H>(node: AffNode<H>) -> nat
    decreases node,
{
    match node {
        AffNode::Bind(child, _) => 1 + node_size(child.node),
        AffNode::Mapping(child, _) => 1 + node_size(child.node),
        AffNode::Catch(child, _) => 1 + node_size(child.node),
        AffNode::Bracket(child, _, _) => 1 + node_size(child.node),
        AffNode::Fork(_, child) => 1 + node_size(child.node),
        AffNode::Sequential(child) => 1 + node_size(child.node),
        AffNode::ParMap(_, child) => 1 + node_size(child.node),
        AffNode::ParApply(left, right) => 1 + node_size(left.node) + node_size(right.node),
        AffNode::ParAlt(left, right) => 1 + node_size(left.node) + node_size(right.node),
        _ => 1,
    }
}

proof fn lemma_node_size_by_links<H>(node: &AffNode<H>)
    ensures
        node_size(*node) == match node_links(*node) {
            AffLinks::Leaf => 1,
            AffLinks::One(child) => 1 + node_size(child.node),
            AffLinks::Two(left, right) => 1 + node_size(left.node) + node_size(right.node),
        },
{
}

/// The descriptions directly below one description.
pub enum AffLinks<H> {
    Leaf,
    One(AffNodeRef<H>),
    Two(AffNodeRef<H>, AffNodeRef<H>),
}

pub open spec fn node_links<H>(node: AffNode<H>) -> AffLinks<H> {
    match node {
        AffNode::Bind(child, _) => AffLinks::One(child),
        AffNode::Mapping(child, _) => AffLinks::One(child),
        AffNode::Catch(child, _) => AffLinks::One(child),
        AffNode::Bracket(child, _, _) => AffLinks::One(child),
        AffNode::Fork(_, child) => AffLinks::One(child),
        AffNode::Sequential(child) => AffLinks::One(child),
        AffNode::ParMap(_, child) => AffLinks::One(child),
        AffNode::ParApply(left, right) => AffLinks::Two(left, right),
        AffNode::ParAlt(left, right) => AffLinks::Two(left, right),
        _ => AffLinks::Leaf,
    }
}

/// Takes a description apart and keeps only what is linked below it.
pub fn aff_drop_links<H>(node: AffNode<H>) -> (links: AffLinks<H>)
    ensures
        links == node_links(node),
    opens_invariants none
    no_unwind
{
    match node {
        AffNode::Bind(child, _) => AffLinks::One(child),
        AffNode::Mapping(child, _) => AffLinks::One(child),
        AffNode::Catch(child, _) => AffLinks::One(child),
        AffNode::Bracket(child, _, _) => AffLinks::One(child),
        AffNode::Fork(_, child) => AffLinks::One(child),
        AffNode::Sequential(child) => AffLinks::One(child),
        AffNode::ParMap(_, child) => AffLinks::One(child),
        AffNode::ParApply(left, right) => AffLinks::Two(left, right),
        AffNode::ParAlt(left, right) => AffLinks::Two(left, right),
        _ => AffLinks::Leaf,
    }
}

/// `Arc::into_inner`: the value itself when this was its last reference, and
/// nothing otherwise. Which of the two comes back depends on who else holds a
/// reference, and is left open.
#[verifier::external_body]
fn arc_into_inner<T>(shared: Arc<T>) -> (inner: Option<T>)
    ensures
        inner matches Some(value) ==> value == *shared,
    opens_invariants none
    no_unwind
{
    Arc::into_inner(shared)
}

/// `Arc::from`: the value in newly allocated shared memory. Where there is no
/// memory the process is aborted, so nothing unwinds out of the call.
#[verifier::external_body]
fn arc_from<T>(value: T) -> (shared: Arc<T>)
    ensures
        *shared == value,
    opens_invariants none
    no_unwind
{
    Arc::from(value)
}

/// The number of descriptions below the left link, or below the only one.
spec fn left_size<H>(node: AffNode<H>) -> nat {
    match node_links(node) {
        AffLinks::Leaf => 0,
        AffLinks::One(child) => node_size(child.node),
        AffLinks::Two(left, _) => node_size(left.node),
    }
}

impl<H> Drop for AffCell<H> {
    /// Walks down the links that nothing else refers to, without recursion. A
    /// pair of links is rotated to the right until its left side is a leaf or
    /// belongs to others too.
    fn drop(&mut self)
        ensures
            final(self).node == AffNode::<H>::Pure(AffValue::Unit),
        opens_invariants none
        no_unwind
    {
        let mut work: AffNode<H> = AffNode::Pure(AffValue::Unit);
        std::mem::swap(&mut self.node, &mut work);
        loop
            invariant
                self.node == AffNode::<H>::Pure(AffValue::Unit),
            decreases node_size(work), left_size(work),
        {
            let ghost before = work;
            proof {
                lemma_node_size_by_links(&before);
            }
            let (first, rest): (AffNodeRef<H>, Option<AffNodeRef<H>>) = match aff_drop_links(work) {
                AffLinks::Leaf => {
                    return;
                },
                AffLinks::One(child) => (child, None),
                AffLinks::Two(left, right) => (left, Some(right)),
            };
            proof {
                lemma_node_size_by_links(&first.node);
            }
            let mut opened: AffNode<H> = AffNode::Pure(AffValue::Unit);
            if let Some(mut cell) = arc_into_inner(first) {
                std::mem::swap(&mut cell.node, &mut opened);
            }
            proof {
                lemma_node_size_by_links(&opened);
            }
            work = match rest {
                None => opened,
                Some(right) => match aff_drop_links(opened) {
                    AffLinks::Leaf => AffNode::Sequential(right),
                    AffLinks::One(child) => AffNode::ParApply(child, right),
                    AffLinks::Two(outer, inner) => {
                        let joined: AffNodeRef<H> = arc_from(
                            AffCell { node: AffNode::ParApply(inner, right) },
                        );
                        proof {
                            lemma_node_size_by_links(&joined.node);
                        }
                        AffNode::ParApply(outer, joined)
                    },
                },
            };
            proof {
                lemma_node_size_by_links(&work);
            }
        }
    }
}

} // verus!
