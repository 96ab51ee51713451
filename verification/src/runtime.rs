//! What all fibers of one entry point share: identifiers, the register of
//! active fibers, and the errors that nobody has taken care of.
use crate::value::{AffResult, AffValue};
use std::collections::{BTreeMap, BTreeSet};
use vstd::prelude::*;

verus! {

pub struct AffRuntime<H> {
    pub next_id: usize,
    /// How many fibers and native operations the entry point waits for.
    pub active: usize,
    pub fibers: BTreeSet<usize>,
    pub errors: BTreeMap<usize, AffValue<H>>,
    /// Whether a Rust panic has been recorded.
    pub panicked: bool,
    /// How many of the active operations are native.
    pub natives: usize,
}

#[verifier::ext_equal]
pub struct RuntimeView<H> {
    pub next_id: usize,
    pub active: nat,
    pub fibers: Set<usize>,
    pub errors: Map<usize, AffValue<H>>,
    pub panicked: bool,
    pub natives: nat,
}

impl<H> View for AffRuntime<H> {
    type V = RuntimeView<H>;

    open spec fn view(&self) -> RuntimeView<H> {
        RuntimeView {
            next_id: self.next_id,
            active: self.active as nat,
            fibers: self.fibers@,
            errors: self.errors@,
            panicked: self.panicked,
            natives: self.natives as nat,
        }
    }
}

/// A set of numbers below `bound` has at most `bound` elements.
pub proof fn lemma_bounded_len(set: Set<usize>, bound: nat)
    requires
        set.finite(),
        forall|n: usize| set.contains(n) ==> n < bound,
    ensures
        set.len() <= bound,
    decreases bound,
{
    if bound == 0 {
        if set.len() > 0 {
            assert(set.contains(set.choose()));
        }
    } else if bound - 1 <= usize::MAX && set.contains((bound - 1) as usize) {
        lemma_bounded_len(set.remove((bound - 1) as usize), (bound - 1) as nat);
    } else {
        lemma_bounded_len(set, (bound - 1) as nat);
    }
}

impl<H> RuntimeView<H> {
    /// The entry point waits for exactly the registered fibers and the native
    /// operations, and every registered fiber has an identifier that was handed
    /// out.
    pub open spec fn wf(self) -> bool {
        &&& self.fibers.finite()
        &&& self.active == self.fibers.len() + self.natives
        &&& forall|id: usize| #[trigger] self.fibers.contains(id) ==> id < self.next_id
        &&& self.next_id + self.natives <= usize::MAX
    }

    /// Whether `n` more identifiers can be handed out, or as many more native
    /// operations counted.
    pub open spec fn has_room_for(self, n: nat) -> bool {
        self.next_id + self.natives + n <= usize::MAX
    }

    pub open spec fn has_room(self) -> bool {
        self.has_room_for(1)
    }

    pub open spec fn with_next_id(self) -> RuntimeView<H> {
        RuntimeView { next_id: (self.next_id + 1) as usize, ..self }
    }

    pub open spec fn entered(self, id: usize) -> RuntimeView<H> {
        RuntimeView { fibers: self.fibers.insert(id), active: self.active + 1, ..self }
    }

    pub open spec fn retired(self, id: usize) -> RuntimeView<H> {
        RuntimeView { fibers: self.fibers.remove(id), active: (self.active - 1) as nat, ..self }
    }

    pub open spec fn with_native(self) -> RuntimeView<H> {
        RuntimeView { active: self.active + 1, natives: self.natives + 1, ..self }
    }

    pub open spec fn without_native(self) -> RuntimeView<H> {
        RuntimeView {
            active: (self.active - 1) as nat,
            natives: (self.natives - 1) as nat,
            ..self
        }
    }

    pub open spec fn with_error(self, id: usize, error: AffValue<H>) -> RuntimeView<H> {
        RuntimeView { errors: self.errors.insert(id, error), ..self }
    }

    pub open spec fn without_error(self, id: usize) -> RuntimeView<H> {
        RuntimeView { errors: self.errors.remove(id), ..self }
    }

    pub open spec fn with_panic(self) -> RuntimeView<H> {
        RuntimeView { panicked: true, ..self }
    }

    /// The runtime after an observer has been told, with what came of it. An
    /// error that the observer throws is kept under an identifier of its own.
    pub open spec fn noticed(self, outcome: AffNoticeOutcome<H>) -> RuntimeView<H> {
        match outcome {
            AffNoticeOutcome::Done => self,
            AffNoticeOutcome::Failed(error) => self.with_next_id().with_error(self.next_id, error),
            AffNoticeOutcome::Panicked => self.with_panic(),
        }
    }
}

proof fn lemma_bound_by_next<H>(runtime: RuntimeView<H>, id: usize)
    requires
        runtime.wf(),
        !runtime.fibers.contains(id),
        id < runtime.next_id,
    ensures
        runtime.fibers.len() + 1 <= runtime.next_id,
{
    lemma_bounded_len(runtime.fibers.insert(id), runtime.next_id as nat);
}

/// How a call into the embedding program ended, for one that returns nothing.
pub enum AffNoticeOutcome<H> {
    Done,
    Failed(AffValue<H>),
    Panicked,
}

/// How a native operation ended.
pub enum AffNativeOutcome<H> {
    Finished(AffResult<H>),
    Panicked,
    Aborted,
}

impl<H> AffRuntime<H> {
    pub fn new() -> (runtime: AffRuntime<H>)
        ensures
            runtime@ == (RuntimeView::<H> {
                next_id: 1,
                active: 0,
                fibers: Set::empty(),
                errors: Map::empty(),
                panicked: false,
                natives: 0,
            }),
            runtime@.wf(),
    {
        AffRuntime {
            next_id: 1,
            active: 0,
            fibers: BTreeSet::new(),
            errors: BTreeMap::new(),
            panicked: false,
            natives: 0,
        }
    }

    pub fn has_room_for(&self, n: usize) -> (room: bool)
        requires
            self@.wf(),
        ensures
            room == self@.has_room_for(n as nat),
    {
        n <= usize::MAX - self.natives - self.next_id
    }

    /// Hands out the next identifier.
    pub fn fresh_id(&mut self) -> (id: usize)
        requires
            old(self)@.wf(),
            old(self)@.has_room(),
        ensures
            id == old(self)@.next_id,
            final(self)@ == old(self)@.with_next_id(),
            final(self)@.wf(),
    {
        let id: usize = self.next_id;
        self.next_id = id + 1;
        id
    }

    /// Registers a fiber that is about to run.
    pub fn enter(&mut self, id: usize)
        requires
            old(self)@.wf(),
            !old(self)@.fibers.contains(id),
            id < old(self)@.next_id,
        ensures
            final(self)@ == old(self)@.entered(id),
            final(self)@.wf(),
    {
        broadcast use vstd::std_specs::btree::group_btree_axioms;
        broadcast use vstd::laws_cmp::group_laws_cmp;

        proof {
            lemma_bound_by_next(self@, id);
        }
        self.active = self.active + 1;
        self.fibers.insert(id);
    }

    /// Takes a fiber off the register once all its observers have been told.
    pub fn retire(&mut self, id: usize)
        requires
            old(self)@.wf(),
            old(self)@.fibers.contains(id),
        ensures
            final(self)@ == old(self)@.retired(id),
            final(self)@.wf(),
    {
        broadcast use vstd::std_specs::btree::group_btree_axioms;
        broadcast use vstd::laws_cmp::group_laws_cmp;

        assert(self@.fibers.remove(id).len() + 1 == self@.fibers.len());
        self.fibers.remove(&id);
        self.active = self.active - 1;
        assert(self@.fibers =~= old(self)@.fibers.remove(id));
    }

    /// Whether a fiber is registered.
    pub fn is_registered(&self, id: usize) -> (registered: bool)
        ensures
            registered == self@.fibers.contains(id),
    {
        broadcast use vstd::std_specs::btree::group_btree_axioms;
        broadcast use vstd::laws_cmp::group_laws_cmp;

        self.fibers.contains(&id)
    }

    pub fn record_error(&mut self, id: usize, error: AffValue<H>)
        ensures
            final(self)@ == old(self)@.with_error(id, error),
    {
        broadcast use vstd::std_specs::btree::group_btree_axioms;
        broadcast use vstd::laws_cmp::group_laws_cmp;

        self.errors.insert(id, error);
    }

    /// Forgets the error of a fiber that somebody takes care of after all.
    pub fn forgive(&mut self, id: usize)
        ensures
            final(self)@ == old(self)@.without_error(id),
    {
        broadcast use vstd::std_specs::btree::group_btree_axioms;
        broadcast use vstd::laws_cmp::group_laws_cmp;

        self.errors.remove(&id);
        assert(self@.errors =~= old(self)@.errors.remove(id));
    }

    /// Takes in what came of telling one observer.
    pub fn notice_outcome(&mut self, outcome: AffNoticeOutcome<H>)
        requires
            old(self)@.wf(),
            old(self)@.has_room(),
        ensures
            final(self)@ == old(self)@.noticed(outcome),
            final(self)@.wf(),
    {
        match outcome {
            AffNoticeOutcome::Done => {},
            AffNoticeOutcome::Failed(error) => {
                let id: usize = self.fresh_id();
                self.record_error(id, error);
            },
            AffNoticeOutcome::Panicked => {
                let _ = aff_record_panic(self);
            },
        }
    }

    /// Counts in a native operation that is about to be spawned.
    pub fn native_spawned(&mut self)
        requires
            old(self)@.wf(),
            old(self)@.has_room(),
        ensures
            final(self)@ == old(self)@.with_native(),
            final(self)@.wf(),
    {
        proof {
            lemma_bounded_len(self@.fibers, self.next_id as nat);
        }
        self.active = self.active + 1;
        self.natives = self.natives + 1;
    }

    /// Counts out a native operation whose completion has run.
    pub fn native_completed(&mut self)
        requires
            old(self)@.wf(),
            old(self)@.natives > 0,
        ensures
            final(self)@ == old(self)@.without_native(),
            final(self)@.wf(),
    {
        self.active = self.active - 1;
        self.natives = self.natives - 1;
    }
}

/// Records a Rust panic. Only the first one counts: the result says whether
/// this was it.
pub fn aff_record_panic<H>(runtime: &mut AffRuntime<H>) -> (first: bool)
    ensures
        first == !old(runtime)@.panicked,
        final(runtime)@ == old(runtime)@.with_panic(),
{
    let first: bool = !runtime.panicked;
    runtime.panicked = true;
    first
}

} // verus!
