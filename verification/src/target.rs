//! Whom a result goes to.
use crate::util::AffUtil;
use crate::value::{share_result, AffResult, AffValue};
use vstd::prelude::*;

verus! {

pub enum AffTarget<H> {
    /// A callback of the embedding program, which takes a result in the form
    /// that these functions give it.
    Foreign { callback: AffValue<H>, util: AffUtil<H> },
    /// An effect of the embedding program, which is run whatever the result is.
    Effect(AffValue<H>),
    /// The wait that a fiber registered at this tick.
    Resolve { fiber: usize, tick: usize },
    /// An entry of a parallel run.
    Settle { run: usize, entry: usize },
    /// An entry of a parallel run, which gets this outcome whatever the result
    /// is.
    Outcome { run: usize, entry: usize, outcome: AffResult<H> },
    /// One of the fibers that are killed together has ended.
    Killed(usize),
}

impl<H> Clone for AffTarget<H> {
    fn clone(&self) -> (target: AffTarget<H>)
        ensures
            target == *self,
    {
        match self {
            AffTarget::Foreign { callback, util } => AffTarget::Foreign {
                callback: callback.clone(),
                util: util.clone(),
            },
            AffTarget::Effect(effect) => AffTarget::Effect(effect.clone()),
            AffTarget::Resolve { fiber, tick } => AffTarget::Resolve { fiber: *fiber, tick: *tick },
            AffTarget::Settle { run, entry } => AffTarget::Settle { run: *run, entry: *entry },
            AffTarget::Outcome { run, entry, outcome } => AffTarget::Outcome {
                run: *run,
                entry: *entry,
                outcome: share_result(outcome),
            },
            AffTarget::Killed(token) => AffTarget::Killed(*token),
        }
    }
}

/// How an observer is told that a fiber has ended.
pub enum AffCallback<H> {
    /// It is told the result.
    Deliver(AffTarget<H>),
    /// It is told only that the fiber has ended.
    Acknowledge(AffTarget<H>),
}

/// Something to tell.
pub struct AffNotice<H> {
    pub target: AffTarget<H>,
    pub result: AffResult<H>,
}

impl<H> AffCallback<H> {
    pub open spec fn notice(self, result: AffResult<H>) -> AffNotice<H> {
        match self {
            AffCallback::Deliver(target) => AffNotice { target, result },
            AffCallback::Acknowledge(target) => AffNotice { target, result: Ok(AffValue::Unit) },
        }
    }

    pub fn to_notice(self, result: &AffResult<H>) -> (notice: AffNotice<H>)
        ensures
            notice == self.notice(*result),
    {
        match self {
            AffCallback::Deliver(target) => AffNotice { target, result: share_result(result) },
            AffCallback::Acknowledge(target) => AffNotice { target, result: Ok(AffValue::Unit) },
        }
    }
}

} // verus!
