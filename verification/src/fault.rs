//! Errors that the runtime itself brings up.
use vstd::prelude::*;

verus! {

#[derive(Clone, Copy, PartialEq, Eq, Structural, Debug)]
pub enum AffFault {
    /// A fiber ended by a Rust panic.
    Panicked,
    /// A branch that lost a race, or whose sibling failed.
    EarlyExit,
    /// A native operation did not come to its end.
    NativeTerminated,
    /// A parallel description was run as a sequential one.
    Misuse,
    /// The runtime was used outside of its entry point.
    NoRuntime,
    /// A delay is longer than a duration can be.
    Duration,
    /// A delay would end after the last moment that the clock can tell.
    Deadline,
    /// There is no identifier left to hand out.
    Exhausted,
    /// Something else was returned where a computation had to be.
    NotAff,
}

impl AffFault {
    pub open spec fn text(self) -> Seq<char> {
        match self {
            AffFault::Panicked => "[Aff] A Rust panic terminated this fiber"@,
            AffFault::EarlyExit => "[ParAff] Early exit"@,
            AffFault::NativeTerminated => "A native IO task terminated unexpectedly"@,
            AffFault::Misuse => "ParAff must be consumed through sequential"@,
            AffFault::NoRuntime => "Aff requires purust_aff_run_main"@,
            AffFault::Duration => {
                "cannot convert float seconds to Duration: value is either too big or NaN"@
            },
            AffFault::Deadline => "overflow when adding duration to instant"@,
            AffFault::Exhausted => "Aff has run out of identifiers"@,
            AffFault::NotAff => "Aff expected a computation"@,
        }
    }

    pub fn message(&self) -> (message: &'static str)
        ensures
            message@ == self.text(),
    {
        match self {
            AffFault::Panicked => "[Aff] A Rust panic terminated this fiber",
            AffFault::EarlyExit => "[ParAff] Early exit",
            AffFault::NativeTerminated => "A native IO task terminated unexpectedly",
            AffFault::Misuse => "ParAff must be consumed through sequential",
            AffFault::NoRuntime => "Aff requires purust_aff_run_main",
            AffFault::Duration => {
                "cannot convert float seconds to Duration: value is either too big or NaN"
            },
            AffFault::Deadline => "overflow when adding duration to instant",
            AffFault::Exhausted => "Aff has run out of identifiers",
            AffFault::NotAff => "Aff expected a computation",
        }
    }
}

} // verus!
