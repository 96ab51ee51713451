//! Maps keyed by identifiers, read in the order of their keys.
use std::collections::{BTreeMap, BTreeSet};
use vstd::prelude::*;
use vstd::std_specs::btree::increasing_seq;
use vstd::std_specs::cmp::OrdSpec;
use vstd::std_specs::iter::IteratorSpec;

verus! {

/// Whether `key` is the least key of `map`.
pub open spec fn is_first<T>(map: Map<usize, T>, key: usize) -> bool {
    map.contains_key(key) && forall|other: usize| map.contains_key(other) ==> key <= other
}

/// Whether `entries` are the entries of `map`, in the order of their keys.
pub open spec fn lists<T>(map: Map<usize, T>, entries: Seq<(usize, T)>) -> bool {
    &&& forall|i: int, j: int| 0 <= i < j < entries.len() ==> entries[i].0 < entries[j].0
    &&& forall|i: int|
        0 <= i < entries.len() ==> map.contains_key((#[trigger] entries[i]).0)
            && map[entries[i].0] == entries[i].1
    &&& forall|key: usize|
        #[trigger] map.contains_key(key) ==> exists|i: int|
            0 <= i < entries.len() && (#[trigger] entries[i]).0 == key
}

/// A map has one listing only.
pub proof fn lemma_lists_unique<T>(map: Map<usize, T>, a: Seq<(usize, T)>, b: Seq<(usize, T)>)
    requires
        lists(map, a),
        lists(map, b),
    ensures
        a == b,
    decreases a.len(),
{
    if a.len() == 0 {
        if b.len() > 0 {
            assert(map.contains_key(b[0].0));
        }
        assert(a =~= b);
    } else {
        assert(map.contains_key(a[0].0));
        assert(b.len() > 0);
        assert(map.contains_key(b[0].0));
        let i = choose|i: int| 0 <= i < b.len() && (#[trigger] b[i]).0 == a[0].0;
        let j = choose|j: int| 0 <= j < a.len() && (#[trigger] a[j]).0 == b[0].0;
        assert(a[0] == b[0]);
        let rest = map.remove(a[0].0);
        lemma_lists_rest(map, a);
        lemma_lists_rest(map, b);
        lemma_lists_unique(rest, a.skip(1), b.skip(1));
        assert(a =~= seq![a[0]] + a.skip(1));
        assert(b =~= seq![b[0]] + b.skip(1));
    }
}

/// The entries of a map, in the order of their keys.
pub open spec fn listing<T>(map: Map<usize, T>) -> Seq<(usize, T)> {
    choose|entries: Seq<(usize, T)>| lists(map, entries)
}

/// The numbers in a set, in ascending order.
pub open spec fn in_order(set: Set<usize>) -> Seq<usize> {
    listing(as_map(set)).map_values(|entry: (usize, ())| entry.0)
}

/// A set as the keys of a map.
pub open spec fn as_map(set: Set<usize>) -> Map<usize, ()> {
    Map::new(|key: usize| set.contains(key), |key: usize| ())
}

proof fn lemma_lists_rest<T>(map: Map<usize, T>, entries: Seq<(usize, T)>)
    requires
        lists(map, entries),
        entries.len() > 0,
    ensures
        lists(map.remove(entries[0].0), entries.skip(1)),
{
    let rest = map.remove(entries[0].0);
    let tail = entries.skip(1);
    assert forall|i: int| 0 <= i < tail.len() implies rest.contains_key((#[trigger] tail[i]).0)
        && rest[tail[i].0] == tail[i].1 by {
        assert(tail[i] == entries[i + 1]);
        assert(entries[0].0 < entries[i + 1].0);
    }
    assert forall|key: usize| #[trigger] rest.contains_key(key) implies exists|i: int|
        0 <= i < tail.len() && (#[trigger] tail[i]).0 == key by {
        assert(map.contains_key(key));
        let i = choose|i: int| 0 <= i < entries.len() && (#[trigger] entries[i]).0 == key;
        assert(tail[i - 1] == entries[i]);
    }
}

/// A finite map that holds anything has a least key.
pub proof fn lemma_least<T>(map: Map<usize, T>) -> (key: usize)
    requires
        map.dom().finite(),
        map.dom().len() > 0,
    ensures
        is_first(map, key),
    decreases map.dom().len(),
{
    let some = map.dom().choose();
    let rest = map.remove(some);
    assert(map.dom().contains(some));
    assert(rest.dom() =~= map.dom().remove(some));
    if rest.dom().len() == 0 {
        assert forall|other: usize| map.contains_key(other) implies some <= other by {
            if other != some {
                assert(rest.dom().contains(other));
            }
        }
        some
    } else {
        let least = lemma_least(rest);
        let key = if some < least {
            some
        } else {
            least
        };
        assert forall|other: usize| map.contains_key(other) implies key <= other by {
            if other != some {
                assert(rest.contains_key(other));
            }
        }
        key
    }
}

/// Every finite map has a listing.
pub proof fn lemma_listing_exists<T>(map: Map<usize, T>)
    requires
        map.dom().finite(),
    ensures
        lists(map, listing(map)),
    decreases map.dom().len(),
{
    let entries = if map.dom().len() == 0 {
        assert forall|key: usize| !map.contains_key(key) by {
            if map.contains_key(key) {
                assert(map.dom().contains(key));
                assert(map.dom().remove(key).len() + 1 == map.dom().len());
            }
        }
        seq![]
    } else {
        let key = lemma_least(map);
        let rest = map.remove(key);
        assert(map.dom().contains(key));
        assert(rest.dom() =~= map.dom().remove(key));
        lemma_listing_exists(rest);
        let tail = listing(rest);
        let entries = seq![(key, map[key])] + tail;
        assert forall|i: int, j: int| 0 <= i < j < entries.len() implies entries[i].0
            < entries[j].0 by {
            assert(entries[j] == tail[j - 1]);
            assert(rest.contains_key(tail[j - 1].0));
            if i > 0 {
                assert(entries[i] == tail[i - 1]);
            }
        }
        assert forall|i: int| 0 <= i < entries.len() implies map.contains_key(
            (#[trigger] entries[i]).0,
        ) && map[entries[i].0] == entries[i].1 by {
            if i > 0 {
                assert(entries[i] == tail[i - 1]);
                assert(rest.contains_key(tail[i - 1].0));
            }
        }
        assert forall|other: usize| #[trigger] map.contains_key(other) implies exists|i: int|
            0 <= i < entries.len() && (#[trigger] entries[i]).0 == other by {
            if other == key {
                assert(entries[0].0 == other);
            } else {
                assert(rest.contains_key(other));
                let i = choose|i: int| 0 <= i < tail.len() && (#[trigger] tail[i]).0 == other;
                assert(entries[i + 1].0 == other);
            }
        }
        entries
    };
    assert(lists(map, entries));
}

/// The least key.
pub fn first_key<T>(map: &BTreeMap<usize, T>) -> (key: Option<usize>)
    ensures
        match key {
            Some(key) => is_first(map@, key),
            None => map@ == Map::<usize, T>::empty(),
        },
{
    broadcast use vstd::std_specs::btree::group_btree_axioms;
    broadcast use vstd::laws_cmp::group_laws_cmp;

    for entry in it: map.iter()
        invariant
            it.index() == 0,
            it.seq() == map.iter().remaining(),
            it.seq().len() == map@.dom().len(),
            increasing_seq(it.seq().map_values(|kv: (&usize, &T)| *kv.0)),
    {
        proof {
            let keys = it.seq().map_values(|kv: (&usize, &T)| *kv.0);
            assert(keys[0] == *entry.0);
            assert forall|other: usize| map@.contains_key(other) implies *entry.0 <= other by {
                let all = map.iter().remaining();
                assert(all.contains((&other, &map@[other])));
                let i = choose|i: int| 0 <= i < all.len() && all[i] == (&other, &map@[other]);
                assert(keys[i] == other);
                assert(increasing_seq(keys));
                if i > 0 {
                    assert(keys[0].cmp_spec(&keys[i]) is Less);
                }
            }
        }
        return Some(*entry.0);
    }
    None
}

/// Takes out the entry with the least key.
pub fn pop_first<T>(map: &mut BTreeMap<usize, T>) -> (entry: Option<(usize, T)>)
    ensures
        match entry {
            Some((key, value)) => is_first(old(map)@, key) && value == old(map)@[key]
                && final(map)@ == old(map)@.remove(key),
            None => old(map)@ == Map::<usize, T>::empty() && final(map)@ == old(map)@,
        },
{
    broadcast use vstd::std_specs::btree::group_btree_axioms;
    broadcast use vstd::laws_cmp::group_laws_cmp;

    match first_key(map) {
        Some(key) => {
            match map.remove(&key) {
                Some(value) => Some((key, value)),
                None => None,
            }
        },
        None => None,
    }
}

/// Takes the map apart into its entries, in the order of their keys.
pub fn into_entries<T>(map: BTreeMap<usize, T>) -> (entries: Vec<(usize, T)>)
    ensures
        lists(map@, entries@),
        entries@ == listing(map@),
{
    broadcast use vstd::std_specs::btree::group_btree_axioms;

    let mut rest: BTreeMap<usize, T> = map;
    let mut entries: Vec<(usize, T)> = Vec::new();
    loop
        invariant
            rest@.dom().finite(),
            forall|i: int, j: int| 0 <= i < j < entries@.len() ==> entries@[i].0 < entries@[j].0,
            forall|i: int|
                0 <= i < entries@.len() ==> map@.contains_key((#[trigger] entries@[i]).0)
                    && map@[entries@[i].0] == entries@[i].1,
            forall|i: int, key: usize|
                #![trigger entries@[i], rest@.contains_key(key)]
                0 <= i < entries@.len() && rest@.contains_key(key) ==> entries@[i].0 < key,
            forall|key: usize|
                #[trigger] map@.contains_key(key) ==> rest@.contains_key(key) || exists|i: int|
                    0 <= i < entries@.len() && (#[trigger] entries@[i]).0 == key,
            forall|key: usize| #[trigger]
                rest@.contains_key(key) ==> map@.contains_key(key) && map@[key] == rest@[key],
        decreases rest@.dom().len(),
    {
        let ghost before = rest@;
        let ghost listed = entries@;
        match pop_first(&mut rest) {
            Some(entry) => {
                assert(before.contains_key(entry.0));
                entries.push(entry);
                assert(rest@.dom() =~= before.dom().remove(entry.0));
                assert forall|key: usize| #[trigger] map@.contains_key(key) implies
                    rest@.contains_key(key) || exists|i: int|
                    0 <= i < entries@.len() && (#[trigger] entries@[i]).0 == key by {
                    if !before.contains_key(key) {
                        let i = choose|i: int|
                            0 <= i < listed.len() && (#[trigger] listed[i]).0 == key;
                        assert(entries@[i].0 == key);
                    } else if key == entry.0 {
                        assert(entries@[listed.len() as int].0 == key);
                    }
                }
            },
            None => {
                proof {
                    lemma_lists_unique(map@, entries@, listing(map@));
                }
                return entries;
            },
        }
    }
}

/// References to numbers are ordered as the numbers are.
proof fn lemma_references_in_order()
    ensures
        vstd::laws_cmp::obeys_cmp::<&usize>(),
{
    broadcast use vstd::laws_eq::group_laws_eq;
    broadcast use vstd::laws_cmp::group_laws_cmp;

    reveal(vstd::laws_eq::obeys_eq_spec_properties);
    reveal(vstd::laws_cmp::obeys_partial_cmp_spec_properties);
    reveal(vstd::laws_cmp::obeys_cmp_partial_ord);
    reveal(vstd::laws_cmp::obeys_cmp_ord);
    assert(vstd::laws_eq::obeys_eq::<&usize>());
}

/// The numbers in a set, in ascending order.
pub fn to_sorted(set: &BTreeSet<usize>) -> (numbers: Vec<usize>)
    ensures
        numbers@ == in_order(set@),
        forall|i: int| 0 <= i < numbers@.len() ==> set@.contains(#[trigger] numbers@[i]),
{
    broadcast use vstd::std_specs::btree::group_btree_axioms;
    broadcast use vstd::laws_cmp::group_laws_cmp;

    let mut numbers: Vec<usize> = Vec::new();
    for number in it: set.iter()
        invariant
            it.seq() == set.iter().remaining(),
            it.seq().unref().to_set() == set@,
            increasing_seq(it.seq()),
            numbers@.len() == it.index(),
            forall|k: int| 0 <= k < numbers@.len() ==> #[trigger] numbers@[k] == *it.seq()[k],
    {
        numbers.push(*number);
    }
    proof {
        let all = set.iter().remaining();
        let entries = numbers@.map_values(|number: usize| (number, ()));
        assert(all.unref() =~= numbers@);
        lemma_references_in_order();
        assert forall|i: int, j: int| 0 <= i < j < entries.len() implies entries[i].0
            < entries[j].0 by {
            assert(increasing_seq(all));
            let (a, b): (&usize, &usize) = (all[i], all[j]);
            assert(OrdSpec::cmp_spec(&a, &b) is Less);
            assert(numbers@[i] == *a && numbers@[j] == *b);
        }
        assert forall|i: int| 0 <= i < entries.len() implies as_map(set@).contains_key(
            (#[trigger] entries[i]).0,
        ) by {
            assert(numbers@.contains(numbers@[i]));
        }
        assert forall|key: usize| #[trigger] as_map(set@).contains_key(key) implies exists|i: int|
            0 <= i < entries.len() && (#[trigger] entries[i]).0 == key by {
            assert(numbers@.to_set().contains(key));
            let i = choose|i: int| 0 <= i < numbers@.len() && numbers@[i] == key;
            assert(entries[i].0 == key);
        }
        assert(lists(as_map(set@), entries));
        lemma_lists_unique(as_map(set@), entries, listing(as_map(set@)));
        assert(numbers@ =~= in_order(set@));
        assert forall|i: int| 0 <= i < numbers@.len() implies set@.contains(
            #[trigger] numbers@[i],
        ) by {
            assert(numbers@.contains(numbers@[i]));
        }
    }
    numbers
}

} // verus!
