//! A parallel run together with the fibers of its leaves.
use crate::parallel::{lemma_pending_are_leaves, pending_leaves, same_shape, AffParRun, ParView};
use crate::target::AffTarget;
use std::collections::{BTreeMap, VecDeque};
use vstd::prelude::*;

verus! {

pub struct AffRun<H> {
    pub par: AffParRun<H>,
    /// The fiber of each leaf, by the index of its entry.
    pub fibers: BTreeMap<usize, usize>,
    /// Who is told the result of the whole.
    pub target: AffTarget<H>,
}

#[verifier::ext_equal]
pub struct RunView<H> {
    pub par: ParView<H>,
    pub fibers: Map<usize, usize>,
    pub target: AffTarget<H>,
}

impl<H> View for AffRun<H> {
    type V = RunView<H>;

    open spec fn view(&self) -> RunView<H> {
        RunView { par: self.par@, fibers: self.fibers@, target: self.target }
    }
}

impl<H> RunView<H> {
    /// Every leaf has a fiber.
    pub open spec fn wf(self) -> bool {
        &&& self.par.wf()
        &&& forall|i: int|
            0 <= i < self.par.entries.len() && (#[trigger] self.par.entries[i]).kind is Leaf
                ==> self.fibers.contains_key(i as usize)
    }

    /// The fibers of these leaves.
    pub open spec fn fibers_of(self, leaves: Seq<usize>) -> Seq<usize>
        decreases leaves.len(),
    {
        if leaves.len() == 0 {
            seq![]
        } else {
            let before = self.fibers_of(leaves.drop_last());
            if self.fibers.contains_key(leaves.last()) {
                before.push(self.fibers[leaves.last()])
            } else {
                before
            }
        }
    }

    pub open spec fn with_fiber(self, entry: usize, fiber: usize) -> RunView<H> {
        RunView { fibers: self.fibers.insert(entry, fiber), ..self }
    }
}

impl<H> AffRun<H> {
    /// A run whose leaves have no fibers yet.
    pub fn new(par: AffParRun<H>, target: AffTarget<H>) -> (run: AffRun<H>)
        ensures
            run@ == (RunView { par: par@, fibers: Map::empty(), target }),
    {
        AffRun { par, fibers: BTreeMap::new(), target }
    }

    /// Notes the fiber of a leaf.
    pub fn place(&mut self, entry: usize, fiber: usize)
        ensures
            final(self)@ == old(self)@.with_fiber(entry, fiber),
    {
        broadcast use vstd::std_specs::btree::group_btree_axioms;
        broadcast use vstd::laws_cmp::group_laws_cmp;

        self.fibers.insert(entry, fiber);
    }

    fn fiber_of(&self, entry: usize) -> (fiber: Option<usize>)
        ensures
            match fiber {
                Some(fiber) => self@.fibers.contains_key(entry) && fiber == self@.fibers[entry],
                None => !self@.fibers.contains_key(entry),
            },
    {
        broadcast use vstd::std_specs::btree::group_btree_axioms;
        broadcast use vstd::laws_cmp::group_laws_cmp;

        match self.fibers.get(&entry) {
            Some(fiber) => Some(*fiber),
            None => None,
        }
    }

    /// The fibers of these leaves.
    pub fn fibers_of(&self, leaves: &Vec<usize>) -> (fibers: VecDeque<usize>)
        ensures
            fibers@ == self@.fibers_of(leaves@),
    {
        let mut fibers: VecDeque<usize> = VecDeque::new();
        let mut i: usize = 0;
        assert(leaves@.take(0) =~= seq![]);
        while i < leaves.len()
            invariant
                i <= leaves.len(),
                fibers@ == self@.fibers_of(leaves@.take(i as int)),
            decreases leaves.len() - i,
        {
            assert(leaves@.take(i + 1).drop_last() =~= leaves@.take(i as int));
            if let Some(fiber) = self.fiber_of(leaves[i]) {
                fibers.push_back(fiber);
            }
            i = i + 1;
        }
        assert(leaves@.take(i as int) =~= leaves@);
        fibers
    }
}

/// A run whose tree keeps its shape keeps a fiber for every leaf.
pub proof fn lemma_run_keeps_fibers<H>(run: RunView<H>, par: ParView<H>)
    requires
        run.wf(),
        par.wf(),
        same_shape(run.par.entries, par.entries),
    ensures
        (RunView { par, ..run }).wf(),
{
    let next = RunView { par, ..run };
    assert forall|i: int|
        0 <= i < next.par.entries.len() && (
        #[trigger] next.par.entries[i]).kind is Leaf implies next.fibers.contains_key(
        i as usize,
    ) by {
        assert(run.par.entries[i].kind == par.entries[i].kind);
    }
}

proof fn lemma_fibers_of_all<H>(run: RunView<H>, leaves: Seq<usize>)
    requires
        forall|k: int| 0 <= k < leaves.len() ==> run.fibers.contains_key(#[trigger] leaves[k]),
    ensures
        run.fibers_of(leaves) == leaves.map_values(|leaf: usize| run.fibers[leaf]),
    decreases leaves.len(),
{
    if leaves.len() > 0 {
        let before = leaves.drop_last();
        assert forall|k: int| 0 <= k < before.len() implies run.fibers.contains_key(
            #[trigger] before[k],
        ) by {
            assert(before[k] == leaves[k]);
        }
        lemma_fibers_of_all(run, before);
        assert(run.fibers.contains_key(leaves[leaves.len() - 1]));
    }
    assert(run.fibers_of(leaves) =~= leaves.map_values(|leaf: usize| run.fibers[leaf]));
}

/// When a branch of a run is given up, every leaf of it whose result has not
/// come in is killed: none is missed.
pub proof fn law_no_pending_leaf_is_missed<H>(run: RunView<H>, i: int)
    requires
        run.wf(),
        0 <= i < run.par.entries.len(),
    ensures
        run.fibers_of(pending_leaves(run.par.entries, i)) == pending_leaves(
            run.par.entries,
            i,
        ).map_values(|leaf: usize| run.fibers[leaf]),
{
    let leaves = pending_leaves(run.par.entries, i);
    lemma_pending_are_leaves(run.par.entries, i);
    assert forall|k: int| 0 <= k < leaves.len() implies run.fibers.contains_key(
        #[trigger] leaves[k],
    ) by {
        assert(run.par.entries[leaves[k] as int].kind is Leaf);
    }
    lemma_fibers_of_all(run, leaves);
}

} // verus!
