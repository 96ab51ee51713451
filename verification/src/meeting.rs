//! Meeting points with which a program can show that its fibers overlap.
use std::collections::BTreeSet;
use vstd::prelude::*;

verus! {

/// The threads that have come to a meeting of two.
pub struct Rendezvous {
    pub arrivals: BTreeSet<u64>,
}

impl View for Rendezvous {
    type V = Set<u64>;

    open spec fn view(&self) -> Set<u64> {
        self.arrivals@
    }
}

/// How a meeting of two stands.
#[derive(Clone, Copy, PartialEq, Eq, Structural, Debug)]
pub enum AffMeeting {
    /// The other thread has not come yet.
    Alone,
    Met,
    /// More than two threads have come.
    Crowded,
}

pub open spec fn meeting_of(arrivals: nat) -> AffMeeting {
    if arrivals < 2 {
        AffMeeting::Alone
    } else if arrivals == 2 {
        AffMeeting::Met
    } else {
        AffMeeting::Crowded
    }
}

#[allow(non_snake_case)]
pub fn Test_Concurrency_rendezvous() -> (meeting: Rendezvous)
    ensures
        meeting@ == Set::<u64>::empty(),
{
    Rendezvous { arrivals: BTreeSet::new() }
}

/// Notes that a thread has come, and tells how the meeting stands. A thread that
/// comes twice counts once.
#[allow(non_snake_case)]
pub fn Test_Concurrency_arrive(meeting: &mut Rendezvous, thread: u64) -> (state: AffMeeting)
    ensures
        final(meeting)@ == old(meeting)@.insert(thread),
        state == meeting_of(final(meeting)@.len()),
{
    broadcast use vstd::std_specs::btree::group_btree_axioms;
    broadcast use vstd::laws_cmp::group_laws_cmp;

    meeting.arrivals.insert(thread);
    let count: usize = meeting.arrivals.len();
    if count < 2 {
        AffMeeting::Alone
    } else if count == 2 {
        AffMeeting::Met
    } else {
        AffMeeting::Crowded
    }
}

/// How many threads have come.
#[allow(non_snake_case)]
pub fn Test_Concurrency_threadCount(meeting: &Rendezvous) -> (count: usize)
    ensures
        count == meeting@.len(),
{
    broadcast use vstd::std_specs::btree::group_btree_axioms;
    broadcast use vstd::laws_cmp::group_laws_cmp;

    meeting.arrivals.len()
}

/// Callbacks that are held back until both of two fibers wait.
pub struct CallbackGate<C> {
    pub callbacks: Vec<C>,
}

#[allow(non_snake_case)]
pub fn Test_Concurrency_callbackGate<C>() -> (gate: CallbackGate<C>)
    ensures
        gate.callbacks@ == Seq::<C>::empty(),
{
    CallbackGate { callbacks: Vec::new() }
}

/// Holds a callback back.
#[allow(non_snake_case)]
pub fn Test_Concurrency_enqueueGated<C>(gate: &mut CallbackGate<C>, callback: C)
    ensures
        final(gate).callbacks@ == old(gate).callbacks@.push(callback),
{
    gate.callbacks.push(callback);
}

/// Lets both callbacks go, in the order in which they came.
#[allow(non_snake_case)]
pub fn Test_Concurrency_releaseCallbacks<C>(gate: &mut CallbackGate<C>) -> (callbacks: Vec<C>)
    requires
        old(gate).callbacks@.len() == 2,
    ensures
        callbacks@ == old(gate).callbacks@,
        final(gate).callbacks@ == Seq::<C>::empty(),
{
    let mut callbacks: Vec<C> = Vec::new();
    std::mem::swap(&mut gate.callbacks, &mut callbacks);
    callbacks
}

} // verus!
