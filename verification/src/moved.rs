//! What a task leads to.
use crate::system::SystemView;
use crate::target::{AffNotice, AffTarget};
use crate::task::{AffHostCall, AffTask};
use crate::value::AffValue;
use vstd::prelude::*;

verus! {

/// What a task leads to: the system after it, the tasks that follow from it
/// (the last one is done first), and what the embedding program has to do.
#[verifier::ext_equal]
pub struct Moved<H> {
    pub system: SystemView<H>,
    pub tasks: Seq<AffTask<H>>,
    pub call: Option<AffHostCall<H>>,
}

/// Word to `target` that something is over.
pub open spec fn word<H>(target: AffTarget<H>) -> AffTask<H> {
    AffTask::Tell(AffNotice { target, result: Ok(AffValue::Unit) })
}

impl<H> SystemView<H> {
    /// Only tasks follow.
    pub open spec fn leading_to(self, tasks: Seq<AffTask<H>>) -> Moved<H> {
        Moved { system: self, tasks, call: None }
    }

    /// Only a call follows.
    pub open spec fn asking(self, call: AffHostCall<H>) -> Moved<H> {
        Moved { system: self, tasks: seq![], call: Some(call) }
    }
}

} // verus!
