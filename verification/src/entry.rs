//! The entry point: it stays until everything has ended, and then says how it
//! all went.
use crate::fault::AffFault;
use crate::ordered::{first_key, is_first};
use crate::pool::{aff_default_workers, default_workers, setting_text};
use crate::runtime::{
    aff_record_panic, AffNativeOutcome, AffNoticeOutcome, AffRuntime, RuntimeView,
};
use crate::system::{lemma_runtime_moved, AffSystem};
use crate::value::{AffResult, AffValue};
use vstd::prelude::*;

verus! {

/// One run of a program.
pub struct AffEntry<H> {
    /// The size of the pool.
    pub workers: usize,
    /// What the main effect ended with.
    pub main: AffResult<H>,
}

/// How the main effect ended.
pub enum AffMainOutcome<H> {
    Returned(AffResult<H>),
    Panicked,
}

/// How a run ends.
pub enum AffExit<H> {
    /// Go on with the panic that was recorded.
    Panic,
    /// Report this error and raise it.
    Failure(AffValue<H>),
    Success,
}

/// A run with a pool of the default size.
pub fn purust_aff_run_main<H>(setting: Option<String>, parallelism: Option<usize>) -> (entry:
    AffEntry<H>)
    ensures
        entry.workers == default_workers(setting_text(setting), parallelism),
        entry.workers >= 1,
        entry.main == AffResult::<H>::Ok(AffValue::Unit),
{
    aff_run_main_with_workers(aff_default_workers(setting, parallelism))
}

/// A run with a pool of the given size, which is one at least.
pub fn aff_run_main_with_workers<H>(workers: usize) -> (entry: AffEntry<H>)
    ensures
        entry.workers == if workers == 0 {
            1
        } else {
            workers
        },
        entry.main == AffResult::<H>::Ok(AffValue::Unit),
{
    AffEntry {
        workers: if workers == 0 {
            1
        } else {
            workers
        },
        main: Ok(AffValue::Unit),
    }
}

impl<H> RuntimeView<H> {
    /// Whether the entry point may be left: at once after a panic, and
    /// otherwise when nothing is active and no microtask is left.
    pub open spec fn may_exit(self, has_jobs: bool) -> bool {
        self.panicked || self.active == 0 && !has_jobs
    }

    /// How a run ends whose main effect ended with `main`: a panic comes before
    /// any error, the error of the main effect before those of fibers, and of
    /// these the one with the least identifier counts.
    pub open spec fn exit(self, main: AffResult<H>) -> AffExit<H> {
        if self.panicked {
            AffExit::Panic
        } else {
            match main {
                Err(error) => AffExit::Failure(error),
                Ok(_) => match self.first_error() {
                    Some(error) => AffExit::Failure(error),
                    None => AffExit::Success,
                },
            }
        }
    }

    /// Of the errors that nobody has taken care of, the one with the least
    /// identifier.
    pub open spec fn first_error(self) -> Option<AffValue<H>> {
        if exists|id: usize| is_first(self.errors, id) {
            Some(self.errors[choose|id: usize| is_first(self.errors, id)])
        } else {
            None
        }
    }
}

impl<H> AffEntry<H> {
    /// Takes in how the main effect ended. After a panic it counts as having
    /// returned, and the panic is recorded.
    pub fn main_ended(&mut self, system: &mut AffSystem<H>, outcome: AffMainOutcome<H>)
        requires
            old(system)@.wf(),
        ensures
            final(self).workers == old(self).workers,
            match outcome {
                AffMainOutcome::Returned(result) => final(self).main == result && final(system)@
                    == old(system)@,
                AffMainOutcome::Panicked => final(self).main == AffResult::<H>::Ok(AffValue::Unit)
                    && final(system)@ == old(system)@.with_runtime(old(system)@.runtime.with_panic()),
            },
            final(system)@.wf(),
    {
        match outcome {
            AffMainOutcome::Returned(result) => {
                self.main = result;
            },
            AffMainOutcome::Panicked => {
                let _ = aff_record_panic(&mut system.runtime);
                self.main = Ok(AffValue::Unit);
                proof {
                    lemma_runtime_moved(old(system)@, system@.runtime);
                    assert(system@ =~= old(system)@.with_runtime(system@.runtime));
                }
            },
        }
    }

    /// Takes in what came of running the microtasks, and tells whether the
    /// entry point may be left now. An error that a microtask throws is kept
    /// under the identifier zero, which no fiber has.
    pub fn drained(
        &self,
        system: &mut AffSystem<H>,
        outcome: AffNoticeOutcome<H>,
        has_jobs: bool,
    ) -> (leave: bool)
        requires
            old(system)@.wf(),
        ensures
            final(system)@ == old(system)@.with_runtime(
                match outcome {
                    AffNoticeOutcome::Done => old(system)@.runtime,
                    AffNoticeOutcome::Failed(error) => old(system)@.runtime.with_error(0, error),
                    AffNoticeOutcome::Panicked => old(system)@.runtime.with_panic(),
                },
            ),
            leave == final(system)@.runtime.may_exit(has_jobs),
            final(system)@.wf(),
    {
        match outcome {
            AffNoticeOutcome::Done => {},
            AffNoticeOutcome::Failed(error) => {
                system.runtime.record_error(0, error);
            },
            AffNoticeOutcome::Panicked => {
                let _ = aff_record_panic(&mut system.runtime);
            },
        }
        proof {
            lemma_runtime_moved(old(system)@, system@.runtime);
            assert(system@ =~= old(system)@.with_runtime(system@.runtime));
        }
        system.runtime.panicked || system.runtime.active == 0 && !has_jobs
    }

    /// How the run ends.
    pub fn exit(&self, system: &AffSystem<H>) -> (exit: AffExit<H>)
        ensures
            exit == system@.runtime.exit(self.main),
    {
        if system.runtime.panicked {
            return AffExit::Panic;
        }
        if let Err(error) = &self.main {
            return AffExit::Failure(error.clone());
        }
        match first_error(&system.runtime) {
            Some(error) => AffExit::Failure(error),
            None => AffExit::Success,
        }
    }
}

/// The error with the least identifier.
fn first_error<H>(runtime: &AffRuntime<H>) -> (error: Option<AffValue<H>>)
    ensures
        error == runtime@.first_error(),
{
    broadcast use vstd::std_specs::btree::group_btree_axioms;
    broadcast use vstd::laws_cmp::group_laws_cmp;

    match first_key(&runtime.errors) {
        Some(id) => {
            assert(is_first(runtime@.errors, id));
            let ghost chosen = choose|id: usize| is_first(runtime@.errors, id);
            assert(is_first(runtime@.errors, chosen));
            assert(chosen == id);
            match runtime.errors.get(&id) {
                Some(error) => Some(error.clone()),
                None => None,
            }
        },
        None => {
            assert(forall|id: usize| !is_first(runtime@.errors, id));
            None
        },
    }
}

/// Takes in what an observer threw while it was told of the end of a fiber.
pub fn aff_notice_thrown<H>(system: &mut AffSystem<H>, outcome: AffNoticeOutcome<H>)
    requires
        old(system)@.wf(),
    ensures
        final(system)@ == old(system)@.with_runtime(
            if old(system)@.runtime.has_room() {
                old(system)@.runtime.noticed(outcome)
            } else {
                old(system)@.runtime.with_panic()
            },
        ),
        final(system)@.wf(),
{
    if system.runtime.has_room_for(1) {
        system.runtime.notice_outcome(outcome);
    } else {
        let _ = aff_record_panic(&mut system.runtime);
    }
    proof {
        lemma_runtime_moved(old(system)@, system@.runtime);
        assert(system@ =~= old(system)@.with_runtime(system@.runtime));
    }
}

/// Counts in a native operation before it is spawned, so that the entry point
/// waits for its end and its clean-up even when nobody else does. The result
/// says whether it could be counted.
pub fn purust_aff_spawn_native<H>(system: &mut AffSystem<H>) -> (counted: bool)
    requires
        old(system)@.wf(),
    ensures
        counted == old(system)@.runtime.has_room(),
        final(system)@ == if counted {
            old(system)@.with_runtime(old(system)@.runtime.with_native())
        } else {
            old(system)@
        },
        final(system)@.wf(),
{
    if !system.runtime.has_room_for(1) {
        return false;
    }
    system.runtime.native_spawned();
    proof {
        lemma_runtime_moved(old(system)@, system@.runtime);
        assert(system@ =~= old(system)@.with_runtime(system@.runtime));
    }
    true
}

/// What a native operation hands to its completion. One that did not come to
/// its end hands over an error, and if that was a panic, the panic is recorded.
pub fn aff_native_joined<H>(system: &mut AffSystem<H>, outcome: AffNativeOutcome<H>) -> (result:
    AffResult<H>)
    requires
        old(system)@.wf(),
    ensures
        result == match outcome {
            AffNativeOutcome::Finished(value) => value,
            _ => Err(AffValue::Fault(AffFault::NativeTerminated)),
        },
        final(system)@ == if outcome is Panicked {
            old(system)@.with_runtime(old(system)@.runtime.with_panic())
        } else {
            old(system)@
        },
        final(system)@.wf(),
{
    let result: AffResult<H> = match outcome {
        AffNativeOutcome::Finished(value) => value,
        AffNativeOutcome::Panicked => {
            let _ = aff_record_panic(&mut system.runtime);
            Err(AffValue::Fault(AffFault::NativeTerminated))
        },
        AffNativeOutcome::Aborted => Err(AffValue::Fault(AffFault::NativeTerminated)),
    };
    proof {
        lemma_runtime_moved(old(system)@, system@.runtime);
        assert(system@ =~= old(system)@.with_runtime(system@.runtime));
    }
    result
}

/// Counts out a native operation whose completion has run, whether or not it
/// threw.
pub fn aff_native_completed<H>(system: &mut AffSystem<H>)
    requires
        old(system)@.wf(),
        old(system)@.runtime.natives > 0,
    ensures
        final(system)@ == old(system)@.with_runtime(old(system)@.runtime.without_native()),
        final(system)@.wf(),
{
    system.runtime.native_completed();
    proof {
        lemma_runtime_moved(old(system)@, system@.runtime);
        assert(system@ =~= old(system)@.with_runtime(system@.runtime));
    }
}

} // verus!
