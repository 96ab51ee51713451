//! Fibers that are killed together, and waiting for their end.
use crate::fault::AffFault;
use crate::fiber::FiberView;
use crate::moved::{word, Moved};
use crate::system::{lemma_same_fibers, AffSystem, SystemView};
use crate::target::{AffNotice, AffTarget};
use crate::task::{AffHostCall, AffTask};
use crate::value::AffValue;
use crate::waiting::{AffKillMany, KillManyView};
use std::collections::VecDeque;
use vstd::prelude::*;

verus! {

impl<H> SystemView<H> {
    /// Kills these fibers one after another. `target` is told when all of them
    /// have ended.
    pub open spec fn killing(
        self,
        victims: Seq<usize>,
        error: AffValue<H>,
        target: AffTarget<H>,
    ) -> Moved<H> {
        if victims.len() == 0 {
            self.leading_to(seq![word(target)])
        } else if self.next_token == usize::MAX {
            self.asking(AffHostCall::Fault(AffFault::Exhausted))
        } else {
            self.with_group(
                self.next_token,
                KillManyView::start(victims, error, target),
            ).with_next_token().leading_to(seq![AffTask::KillNext(self.next_token)])
        }
    }

    /// Kills the next fiber of a group. One that is gone has ended.
    pub open spec fn killing_next(self, token: usize) -> Moved<H> {
        if self.groups.contains_key(token) && self.groups[token].victims.len() > 0 {
            let group = self.groups[token];
            let victim = group.victims[0];
            let target = AffTarget::Killed(token);
            if self.fibers.contains_key(victim) {
                let fiber = self.fibers[victim];
                let killed = fiber.killed(group.error, target);
                self.with_group(
                    token,
                    group.advanced().holding(victim, fiber.next_join),
                ).with_runtime(fiber.registered(self.runtime)).with_fiber(killed).leading_to(
                    seq![
                        AffTask::KillNext(token),
                        if fiber.result is None {
                            AffTask::Drive(victim)
                        } else {
                            word(target)
                        },
                    ],
                )
            } else {
                self.with_group(token, group.advanced()).leading_to(
                    seq![AffTask::KillNext(token), word(target)],
                )
            }
        } else {
            self.leading_to(seq![])
        }
    }

    /// Counts one fiber of a group that has ended.
    pub open spec fn acknowledged(self, token: usize) -> Moved<H> {
        if self.groups.contains_key(token) {
            let group = self.groups[token];
            if group.remaining == 1 {
                self.without_group(token).leading_to(seq![word(group.target)])
            } else {
                self.with_group(token, group.after(1)).leading_to(seq![])
            }
        } else {
            self.leading_to(seq![])
        }
    }
}

/// The fibers without these observers.
pub open spec fn without_observers<H>(
    fibers: Map<usize, FiberView<H>>,
    removers: Seq<(usize, usize)>,
) -> Map<usize, FiberView<H>>
    decreases removers.len(),
{
    if removers.len() == 0 {
        fibers
    } else {
        let before = without_observers(fibers, removers.drop_last());
        let (id, join) = removers.last();
        if before.contains_key(id) {
            before.insert(id, before[id].detached(join))
        } else {
            before
        }
    }
}

/// Whether one of these observers is still there to be removed, and not among
/// those that are being told of an end already.
pub open spec fn has_observer<H>(
    fibers: Map<usize, FiberView<H>>,
    removers: Seq<(usize, usize)>,
) -> bool
    decreases removers.len(),
{
    removers.len() > 0 && {
        let before = without_observers(fibers, removers.drop_last());
        let (id, join) = removers.last();
        ||| has_observer(fibers, removers.drop_last())
        ||| before.contains_key(id) && before[id].joins.contains_key(join)
    }
}

impl<H> SystemView<H> {
    /// Gives up the wait for a group. Its observers are removed; the fibers
    /// stay killed. Where an observer could be removed the wait never ends, and
    /// the group is gone; where all fibers that are left are telling of their
    /// ends already, the wait still ends with the last of them.
    pub open spec fn revoking(self, token: usize) -> SystemView<H> {
        if self.groups.contains_key(token) {
            let group = self.groups[token];
            let next = SystemView {
                fibers: without_observers(self.fibers, group.removers),
                ..self
            };
            if has_observer(self.fibers, group.removers) && group.victims.len() == 0 {
                next.without_group(token)
            } else {
                next.with_group(token, group.dismissed())
            }
        } else {
            self
        }
    }

    /// The fiber without one observer.
    pub open spec fn detaching(self, id: usize, join: usize) -> SystemView<H> {
        if self.fibers.contains_key(id) {
            self.with_fiber(self.fibers[id].detached(join))
        } else {
            self
        }
    }
}

/// Begins to kill these fibers one after another. `target` is told when all of
/// them have ended.
pub fn aff_kill_many<H>(
    system: &mut AffSystem<H>,
    victims: VecDeque<usize>,
    error: AffValue<H>,
    target: AffTarget<H>,
    agenda: &mut Vec<AffTask<H>>,
) -> (call: Option<AffHostCall<H>>)
    requires
        old(system)@.wf(),
    ensures
        final(system)@ == old(system)@.killing(victims@, error, target).system,
        final(agenda)@ == old(agenda)@ + old(system)@.killing(victims@, error, target).tasks,
        call == old(system)@.killing(victims@, error, target).call,
        final(system)@.wf(),
{
    if victims.len() == 0 {
        agenda.push(AffTask::Tell(AffNotice { target, result: Ok(AffValue::Unit) }));
        return None;
    }
    let token: usize = system.next_token;
    if token == usize::MAX {
        return Some(AffHostCall::Fault(AffFault::Exhausted));
    }
    system.next_token = token + 1;
    system.groups.put(token, AffKillMany::new(victims, error, target));
    agenda.push(AffTask::KillNext(token));
    proof {
        lemma_same_fibers(old(system)@, system@);
    }
    None
}

impl<H> AffSystem<H> {
    /// Kills the next fiber of a group.
    pub(crate) fn kill_next(&mut self, token: usize, agenda: &mut Vec<AffTask<H>>)
        requires
            old(self)@.wf(),
        ensures
            final(self)@ == old(self)@.killing_next(token).system,
            final(agenda)@ == old(agenda)@ + old(self)@.killing_next(token).tasks,
            old(self)@.killing_next(token).call is None,
            final(self)@.wf(),
    {
        let ghost before = self@;
        let mut group: AffKillMany<H> = match self.groups.take(token) {
            Some(group) => group,
            None => {
                assert(self@ =~= before);
                return;
            },
        };
        let victim: usize = match group.next_victim() {
            Some(victim) => victim,
            None => {
                self.groups.put(token, group);
                assert(self@ =~= before);
                return;
            },
        };
        agenda.push(AffTask::KillNext(token));
        match self.fibers.take(victim) {
            Some(mut fiber) => {
                assert(before.fiber_fits(victim));
                let ghost seen = fiber@;
                let (join, notice, drive) = fiber.kill(
                    &mut self.runtime,
                    group.error.clone(),
                    AffTarget::Killed(token),
                );
                group.hold(victim, join);
                let ghost held = group@;
                self.groups.put(token, group);
                proof {
                    lemma_same_fibers(before, before.with_group(token, held));
                    assert(self@ =~= (SystemView {
                        fibers: before.fibers.remove(victim),
                        runtime: self@.runtime,
                        ..before.with_group(token, held)
                    }));
                }
                self.put_fiber(fiber, Ghost(before.with_group(token, held)));
                if let Some(notice) = notice {
                    agenda.push(AffTask::Tell(notice));
                }
                if drive {
                    agenda.push(AffTask::Drive(victim));
                }
            },
            None => {
                self.groups.put(token, group);
                agenda.push(
                    AffTask::Tell(
                        AffNotice { target: AffTarget::Killed(token), result: Ok(AffValue::Unit) },
                    ),
                );
                proof {
                    assert(self@ =~= before.with_group(token, group@));
                    lemma_same_fibers(before, self@);
                }
            },
        }
        assert(agenda@ =~= old(agenda)@ + before.killing_next(token).tasks);
    }

    /// Counts one fiber of a group that has ended.
    pub(crate) fn acknowledge(&mut self, token: usize, agenda: &mut Vec<AffTask<H>>)
        requires
            old(self)@.wf(),
        ensures
            final(self)@ == old(self)@.acknowledged(token).system,
            final(agenda)@ == old(agenda)@ + old(self)@.acknowledged(token).tasks,
            old(self)@.acknowledged(token).call is None,
            final(self)@.wf(),
    {
        let ghost before = self@;
        match self.groups.take(token) {
            Some(mut group) => {
                if group.acknowledge() {
                    agenda.push(
                        AffTask::Tell(
                            AffNotice { target: group.target, result: Ok(AffValue::Unit) },
                        ),
                    );
                } else {
                    self.groups.put(token, group);
                }
            },
            None => {},
        }
        proof {
            assert(self@ =~= before.acknowledged(token).system);
            lemma_same_fibers(before, self@);
        }
    }

    /// Removes an observer from a fiber, and tells whether it was there.
    pub fn detach(&mut self, id: usize, join: usize) -> (found: bool)
        requires
            old(self)@.wf(),
        ensures
            found == (old(self)@.fibers.contains_key(id)
                && old(self)@.fibers[id].joins.contains_key(join)),
            final(self)@ == old(self)@.detaching(id, join),
            final(self)@.wf(),
    {
        let ghost before = self@;
        match self.fibers.take(id) {
            Some(mut fiber) => {
                assert(before.fiber_fits(id));
                let found: bool = fiber.revoke(join);
                self.put_fiber(fiber, Ghost(before));
                found
            },
            None => {
                assert(self@ =~= before);
                false
            },
        }
    }

    /// Gives up the wait for a group.
    pub(crate) fn revoke(&mut self, token: usize)
        requires
            old(self)@.wf(),
        ensures
            final(self)@ == old(self)@.revoking(token),
            final(self)@.wf(),
    {
        let ghost before = self@;
        let mut group: AffKillMany<H> = match self.groups.take(token) {
            Some(group) => group,
            None => {
                assert(self@ =~= before);
                return;
            },
        };
        let ghost seen = group@;
        proof {
            assert(self@ =~= before.without_group(token));
            lemma_same_fibers(before, self@);
            assert(forall|other: usize| #[trigger]
                self@.groups.contains_key(other) ==> before.groups.contains_key(other));
        }
        let removers: Vec<(usize, usize)> = group.dismiss();
        let mut found: bool = false;
        let mut i: usize = 0;
        assert(removers@.take(0) =~= seq![]);
        while i < removers.len()
            invariant
                i <= removers.len(),
                self@.wf(),
                self@ == (SystemView {
                    fibers: without_observers(before.fibers, removers@.take(i as int)),
                    ..before.without_group(token)
                }),
                found == has_observer(before.fibers, removers@.take(i as int)),
            decreases removers.len() - i,
        {
            assert(removers@.take(i + 1).drop_last() =~= removers@.take(i as int));
            proof {
                if self@.fibers.contains_key(removers@[i as int].0) {
                    assert(self@.fiber_fits(removers@[i as int].0));
                }
            }
            let here: bool = self.detach(removers[i].0, removers[i].1);
            found = found || here;
            i = i + 1;
        }
        assert(removers@.take(i as int) =~= removers@);
        if !found || group.victims.len() > 0 {
            let ghost here = self@;
            self.groups.put(token, group);
            proof {
                lemma_same_fibers(here, self@);
                assert(before.groups[token].remaining > 0);
            }
        }
        assert(self@ =~= before.revoking(token));
    }
}

} // verus!
