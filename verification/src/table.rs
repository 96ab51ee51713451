//! Things that are found under an identifier.
use std::collections::BTreeMap;
use vstd::prelude::*;

verus! {

pub struct AffTable<T> {
    pub entries: BTreeMap<usize, T>,
}

impl<T: View> View for AffTable<T> {
    type V = Map<usize, T::V>;

    open spec fn view(&self) -> Map<usize, T::V> {
        self.entries@.map_values(|entry: T| entry@)
    }
}

impl<T: View> AffTable<T> {
    pub fn new() -> (table: AffTable<T>)
        ensures
            table@ == Map::<usize, T::V>::empty(),
    {
        let table: AffTable<T> = AffTable { entries: BTreeMap::new() };
        assert(table@ =~= Map::empty());
        table
    }

    pub fn contains(&self, key: usize) -> (contained: bool)
        ensures
            contained == self@.contains_key(key),
    {
        broadcast use vstd::std_specs::btree::group_btree_axioms;
        broadcast use vstd::laws_cmp::group_laws_cmp;

        self.entries.contains_key(&key)
    }

    /// Looks at an entry.
    pub fn get(&self, key: usize) -> (entry: Option<&T>)
        ensures
            match entry {
                Some(entry) => self@.contains_key(key) && entry@ == self@[key],
                None => !self@.contains_key(key),
            },
    {
        broadcast use vstd::std_specs::btree::group_btree_axioms;
        broadcast use vstd::laws_cmp::group_laws_cmp;

        self.entries.get(&key)
    }

    /// Takes an entry out.
    pub fn take(&mut self, key: usize) -> (entry: Option<T>)
        ensures
            match entry {
                Some(entry) => old(self)@.contains_key(key) && entry@ == old(self)@[key],
                None => !old(self)@.contains_key(key),
            },
            final(self)@ == old(self)@.remove(key),
    {
        broadcast use vstd::std_specs::btree::group_btree_axioms;
        broadcast use vstd::laws_cmp::group_laws_cmp;

        let entry: Option<T> = self.entries.remove(&key);
        assert(self@ =~= old(self)@.remove(key));
        entry
    }

    /// Puts an entry in, in place of the one that was there.
    pub fn put(&mut self, key: usize, entry: T)
        ensures
            final(self)@ == old(self)@.insert(key, entry@),
    {
        broadcast use vstd::std_specs::btree::group_btree_axioms;
        broadcast use vstd::laws_cmp::group_laws_cmp;

        self.entries.insert(key, entry);
        assert(self@ =~= old(self)@.insert(key, entry@));
    }
}

} // verus!
