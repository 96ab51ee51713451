//! The fibers that a supervised computation has made.
use crate::ordered::{in_order, to_sorted};
use std::collections::BTreeSet;
use vstd::prelude::*;

verus! {

pub struct AffSupervisor {
    pub fibers: BTreeSet<usize>,
}

impl View for AffSupervisor {
    type V = Set<usize>;

    open spec fn view(&self) -> Set<usize> {
        self.fibers@
    }
}

impl AffSupervisor {
    pub fn new() -> (supervisor: AffSupervisor)
        ensures
            supervisor@ == Set::<usize>::empty(),
    {
        AffSupervisor { fibers: BTreeSet::new() }
    }

    /// Puts a child under supervision.
    pub fn register(&mut self, id: usize)
        ensures
            final(self)@ == old(self)@.insert(id),
    {
        broadcast use vstd::std_specs::btree::group_btree_axioms;
        broadcast use vstd::laws_cmp::group_laws_cmp;

        self.fibers.insert(id);
    }

    /// Lets go of a child that has ended.
    pub fn release(&mut self, id: usize)
        ensures
            final(self)@ == old(self)@.remove(id),
    {
        broadcast use vstd::std_specs::btree::group_btree_axioms;
        broadcast use vstd::laws_cmp::group_laws_cmp;

        self.fibers.remove(&id);
        assert(self@ =~= old(self)@.remove(id));
    }

    /// All children, in the order in which they were made.
    pub fn members(&self) -> (members: Vec<usize>)
        ensures
            members@ == in_order(self@),
            forall|i: int| 0 <= i < members@.len() ==> self@.contains(#[trigger] members@[i]),
    {
        to_sorted(&self.fibers)
    }
}

} // verus!
