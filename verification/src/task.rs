//! What a thread still has to do, and what it has to ask the embedding program
//! for.
use crate::driver::AffReply;
use crate::fault::AffFault;
use crate::machine::AffRequest;
use crate::target::AffNotice;
use crate::util::{AffCall, AffUtil};
use crate::value::AffValue;
use vstd::prelude::*;

verus! {

/// One thing to do. A thread does the newest of its tasks first, so that what
/// follows from one task is done before the tasks that wait behind it.
pub enum AffTask<H> {
    /// Take this fiber on.
    Drive(usize),
    /// Hand a reply to the fiber that waits for it.
    Reply(usize, AffReply<H>),
    /// Tell the observers of a fiber, one after another, that it has ended.
    Notify(usize),
    Tell(AffNotice<H>),
    /// Kill the next of the fibers that are killed together.
    KillNext(usize),
    /// End a fiber that a Rust panic has hit.
    Panicked(usize),
}

/// What the embedding program has to do before the thread can go on.
pub enum AffHostCall<H> {
    /// Do what the fiber asks for, and reply to it.
    Request(usize, AffRequest<H>),
    /// Call the builder with a callback that resolves this tick of the fiber,
    /// run the effect that it returns, and reply to the fiber. The callback
    /// takes results apart with these functions.
    Build { fiber: usize, build: AffValue<H>, tick: usize, util: AffUtil<H> },
    /// Make the handle of a child, and reply with it to its parent.
    Forked { parent: usize, child: usize },
    /// Call a function; what comes of it is the result of this entry.
    Call { run: usize, entry: usize, function: AffValue<H>, argument: AffValue<H> },
    /// Make the call, hand what it returns to the callback, and run the effect
    /// that comes back.
    Notice { encoded: AffCall<H>, callback: AffValue<H> },
    /// Run an effect.
    Run(AffValue<H>),
    /// Have another thread take this fiber on.
    Resume(usize),
    /// The runtime itself panics here.
    Fault(AffFault),
}

/// Who a panic, or an error that is thrown past the tasks of a thread, stops at.
#[derive(Clone, Copy, PartialEq, Eq, Structural, Debug)]
pub enum AffCaught {
    /// Nobody: it goes on to whoever gave the thread its tasks.
    Nobody,
    /// The telling of observers, which goes on with the next one.
    Notice,
    /// A fiber, which ends.
    Fiber,
}

/// The tasks that are left after something was thrown, and who it stopped at.
/// All tasks up to the newest one that catches are given up.
pub open spec fn unwound<H>(agenda: Seq<AffTask<H>>) -> (Seq<AffTask<H>>, AffCaught)
    decreases agenda.len(),
{
    if agenda.len() == 0 {
        (agenda, AffCaught::Nobody)
    } else {
        match agenda.last() {
            AffTask::Notify(_) => (agenda, AffCaught::Notice),
            AffTask::Reply(fiber, _) => (
                agenda.drop_last().push(AffTask::Panicked(fiber)),
                AffCaught::Fiber,
            ),
            AffTask::Panicked(_) => (agenda, AffCaught::Fiber),
            _ => unwound(agenda.drop_last()),
        }
    }
}

/// Gives up the tasks that something thrown passes by.
pub fn aff_unwind<H>(agenda: &mut Vec<AffTask<H>>) -> (caught: AffCaught)
    ensures
        (final(agenda)@, caught) == unwound(old(agenda)@),
{
    loop
        invariant
            unwound(agenda@) == unwound(old(agenda)@),
        decreases agenda@.len(),
    {
        let ghost before = agenda@;
        match agenda.pop() {
            None => {
                return AffCaught::Nobody;
            },
            Some(task) => {
                assert(agenda@ =~= before.drop_last());
                match task {
                    AffTask::Notify(fiber) => {
                        agenda.push(AffTask::Notify(fiber));
                        assert(agenda@ =~= before);
                        return AffCaught::Notice;
                    },
                    AffTask::Reply(fiber, _) => {
                        agenda.push(AffTask::Panicked(fiber));
                        return AffCaught::Fiber;
                    },
                    AffTask::Panicked(fiber) => {
                        agenda.push(AffTask::Panicked(fiber));
                        assert(agenda@ =~= before);
                        return AffCaught::Fiber;
                    },
                    _ => {},
                }
            },
        }
    }
}

/// Whether a task stops what is thrown by the tasks after it.
pub open spec fn is_catching<H>(task: AffTask<H>) -> bool {
    task is Notify || task is Reply || task is Panicked
}

/// What is thrown stops at the newest task that catches: the tasks before it are
/// kept, those after it are given up, and a fiber that waits for a reply ends.
pub proof fn law_thrown_stops_at_the_newest_that_catches<H>(agenda: Seq<AffTask<H>>, i: int)
    requires
        0 <= i < agenda.len(),
        is_catching(agenda[i]),
        forall|j: int| i < j < agenda.len() ==> !is_catching(#[trigger] agenda[j]),
    ensures
        unwound(agenda) == match agenda[i] {
            AffTask::Reply(fiber, _) => (
                agenda.take(i).push(AffTask::Panicked(fiber)),
                AffCaught::Fiber,
            ),
            AffTask::Notify(_) => (agenda.take(i + 1), AffCaught::Notice),
            _ => (agenda.take(i + 1), AffCaught::Fiber),
        },
    decreases agenda.len(),
{
    if i == agenda.len() - 1 {
        assert(agenda.take(i + 1) =~= agenda);
        assert(agenda.take(i) =~= agenda.drop_last());
    } else {
        let before = agenda.drop_last();
        assert(!is_catching(agenda[agenda.len() - 1]));
        assert forall|j: int| i < j < before.len() implies !is_catching(#[trigger] before[j]) by {
            assert(before[j] == agenda[j]);
        }
        law_thrown_stops_at_the_newest_that_catches(before, i);
        assert(before.take(i) =~= agenda.take(i));
        assert(before.take(i + 1) =~= agenda.take(i + 1));
    }
}

/// What is thrown where nothing catches goes on to whoever gave the tasks, and
/// all of them are given up.
pub proof fn law_thrown_goes_on_where_nothing_catches<H>(agenda: Seq<AffTask<H>>)
    requires
        forall|j: int| 0 <= j < agenda.len() ==> !is_catching(#[trigger] agenda[j]),
    ensures
        unwound(agenda) == (Seq::<AffTask<H>>::empty(), AffCaught::Nobody),
    decreases agenda.len(),
{
    if agenda.len() == 0 {
        assert(agenda =~= Seq::empty());
    } else {
        let before = agenda.drop_last();
        assert(!is_catching(agenda[agenda.len() - 1]));
        assert forall|j: int| 0 <= j < before.len() implies !is_catching(#[trigger] before[j]) by {
            assert(before[j] == agenda[j]);
        }
        law_thrown_goes_on_where_nothing_catches(before);
    }
}

} // verus!
