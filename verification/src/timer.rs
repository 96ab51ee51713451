//! Timers, by deadline and then by registration.
use std::collections::BTreeMap;
use vstd::prelude::*;
use vstd::std_specs::btree::increasing_seq;
use vstd::std_specs::cmp::OrdSpec;
use vstd::std_specs::iter::IteratorSpec;

verus! {

/// A deadline in nanoseconds since the runtime began, and the identifier that
/// the timer was registered under.
pub type AffTimerKey = (u128, usize);

pub struct AffTimers<C> {
    pub queue: BTreeMap<AffTimerKey, C>,
}

impl<C> View for AffTimers<C> {
    type V = Map<AffTimerKey, C>;

    open spec fn view(&self) -> Map<AffTimerKey, C> {
        self.queue@
    }
}

/// Whether the timer `a` is due before `b`, or is `b`.
pub open spec fn not_after(a: AffTimerKey, b: AffTimerKey) -> bool {
    a.0 < b.0 || a.0 == b.0 && a.1 <= b.1
}

/// Whether no timer is due before `key`.
pub open spec fn is_next<C>(timers: Map<AffTimerKey, C>, key: AffTimerKey) -> bool {
    timers.contains_key(key) && forall|other: AffTimerKey|
        timers.contains_key(other) ==> not_after(key, other)
}

/// What the timer loop has to do.
pub enum AffTimerAction<C> {
    /// Hand this callback to a thread of its own.
    Fire(C),
    /// Sleep until this deadline, or until the timers change.
    Sleep(u128),
    /// Wait until the timers change.
    Wait,
}

/// Whether `action` is what the timer loop has to do at `now`, and `after` are
/// the timers that are left. The timer that is due first fires if its deadline
/// has come.
pub open spec fn is_poll<C>(
    timers: Map<AffTimerKey, C>,
    now: u128,
    action: AffTimerAction<C>,
    after: Map<AffTimerKey, C>,
) -> bool {
    match action {
        AffTimerAction::Fire(callback) => exists|key: AffTimerKey| #[trigger]
            is_next(timers, key) && key.0 <= now && callback == timers[key] && after
                == timers.remove(key),
        AffTimerAction::Sleep(deadline) => now < deadline && after == timers && exists|
            key: AffTimerKey,
        | #[trigger]
            is_next(timers, key) && key.0 == deadline,
        AffTimerAction::Wait => timers == Map::<AffTimerKey, C>::empty() && after == timers,
    }
}

fn next_timer<C>(queue: &BTreeMap<AffTimerKey, C>) -> (key: Option<AffTimerKey>)
    ensures
        match key {
            Some(key) => is_next(queue@, key),
            None => queue@ == Map::<AffTimerKey, C>::empty(),
        },
{
    broadcast use vstd::std_specs::btree::group_btree_axioms;
    broadcast use vstd::laws_cmp::group_laws_cmp;

    for entry in it: queue.iter()
        invariant
            it.index() == 0,
            it.seq() == queue.iter().remaining(),
            it.seq().len() == queue@.dom().len(),
            increasing_seq(it.seq().map_values(|kv: (&AffTimerKey, &C)| *kv.0)),
    {
        proof {
            let keys = it.seq().map_values(|kv: (&AffTimerKey, &C)| *kv.0);
            assert(keys[0] == *entry.0);
            assert forall|other: AffTimerKey| queue@.contains_key(other) implies not_after(
                *entry.0,
                other,
            ) by {
                let all = queue.iter().remaining();
                assert(all.contains((&other, &queue@[other])));
                let i = choose|i: int| 0 <= i < all.len() && all[i] == (&other, &queue@[other]);
                assert(keys[i] == other);
                assert(increasing_seq(keys));
                if i > 0 {
                    assert(keys[0].cmp_spec(&keys[i]) is Less);
                }
            }
        }
        return Some(*entry.0);
    }
    None
}

impl<C> AffTimers<C> {
    pub fn new() -> (timers: AffTimers<C>)
        ensures
            timers@ == Map::<AffTimerKey, C>::empty(),
    {
        AffTimers { queue: BTreeMap::new() }
    }

    /// Registers a callback.
    pub fn register(&mut self, key: AffTimerKey, callback: C)
        ensures
            final(self)@ == old(self)@.insert(key, callback),
    {
        broadcast use vstd::std_specs::btree::group_btree_axioms;
        broadcast use vstd::laws_cmp::group_laws_cmp;

        self.queue.insert(key, callback);
    }

    /// Gives up a timer. One that has fired is gone already.
    pub fn cancel(&mut self, key: AffTimerKey)
        ensures
            final(self)@ == old(self)@.remove(key),
    {
        broadcast use vstd::std_specs::btree::group_btree_axioms;
        broadcast use vstd::laws_cmp::group_laws_cmp;

        self.queue.remove(&key);
        assert(self@ =~= old(self)@.remove(key));
    }

    /// What the timer loop has to do at `now`. Timers that are due fire one
    /// after another, the earliest deadline first, and of two with the same
    /// deadline the one that was registered first.
    pub fn poll(&mut self, now: u128) -> (action: AffTimerAction<C>)
        ensures
            is_poll(old(self)@, now, action, final(self)@),
    {
        broadcast use vstd::std_specs::btree::group_btree_axioms;
        broadcast use vstd::laws_cmp::group_laws_cmp;

        match next_timer(&self.queue) {
            Some(key) => {
                if key.0 <= now {
                    match self.queue.remove(&key) {
                        Some(callback) => {
                            assert(is_next(old(self)@, key));
                            AffTimerAction::Fire(callback)
                        },
                        None => AffTimerAction::Wait,
                    }
                } else {
                    assert(is_next(old(self)@, key));
                    AffTimerAction::Sleep(key.0)
                }
            },
            None => AffTimerAction::Wait,
        }
    }
}

} // verus!
