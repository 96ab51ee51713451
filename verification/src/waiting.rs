//! Waiting for the end of several fibers that are killed together.
use crate::target::AffTarget;
use crate::value::AffValue;
use std::collections::VecDeque;
use vstd::prelude::*;

verus! {

pub struct AffKillMany<H> {
    /// How many of the fibers have not ended yet.
    pub remaining: usize,
    /// The fibers whose turn to be killed has not come yet.
    pub victims: VecDeque<usize>,
    pub error: AffValue<H>,
    /// Who is told when all of them have ended.
    pub target: AffTarget<H>,
    /// The observers that wait for the fibers: a fiber, and its observer.
    pub removers: Vec<(usize, usize)>,
}

#[verifier::ext_equal]
pub struct KillManyView<H> {
    pub remaining: nat,
    pub victims: Seq<usize>,
    pub error: AffValue<H>,
    pub target: AffTarget<H>,
    pub removers: Seq<(usize, usize)>,
}

impl<H> View for AffKillMany<H> {
    type V = KillManyView<H>;

    open spec fn view(&self) -> KillManyView<H> {
        KillManyView {
            remaining: self.remaining as nat,
            victims: self.victims@,
            error: self.error,
            target: self.target,
            removers: self.removers@,
        }
    }
}

impl<H> KillManyView<H> {
    /// A wait for these fibers, none of which has been killed yet.
    pub open spec fn start(
        victims: Seq<usize>,
        error: AffValue<H>,
        target: AffTarget<H>,
    ) -> KillManyView<H> {
        KillManyView { remaining: victims.len(), victims, error, target, removers: Seq::empty() }
    }

    /// The wait after `n` more fibers have ended.
    pub open spec fn after(self, n: nat) -> KillManyView<H> {
        KillManyView { remaining: (self.remaining - n) as nat, ..self }
    }

    /// The wait without the fiber whose turn it is.
    pub open spec fn advanced(self) -> KillManyView<H> {
        KillManyView { victims: self.victims.skip(1), ..self }
    }

    /// The wait without the means of removing its observers.
    pub open spec fn dismissed(self) -> KillManyView<H> {
        KillManyView { removers: Seq::empty(), ..self }
    }

    /// The wait with the means of removing one more observer.
    pub open spec fn holding(self, fiber: usize, join: usize) -> KillManyView<H> {
        KillManyView { removers: self.removers.push((fiber, join)), ..self }
    }
}

impl<H> AffKillMany<H> {
    pub fn new(victims: VecDeque<usize>, error: AffValue<H>, target: AffTarget<H>) -> (wait:
        AffKillMany<H>)
        ensures
            wait@ == KillManyView::<H>::start(victims@, error, target),
    {
        AffKillMany { remaining: victims.len(), victims, error, target, removers: Vec::new() }
    }

    /// Takes out the fiber whose turn it is to be killed.
    pub fn next_victim(&mut self) -> (victim: Option<usize>)
        ensures
            match victim {
                Some(victim) => old(self)@.victims.len() > 0 && victim == old(self)@.victims[0]
                    && final(self)@ == old(self)@.advanced(),
                None => old(self)@.victims.len() == 0 && final(self)@ == old(self)@,
            },
    {
        let victim: Option<usize> = self.victims.pop_front();
        assert(victim is Some ==> self@.victims =~= old(self)@.victims.skip(1));
        victim
    }

    /// Keeps the means of removing one of the observers.
    pub fn hold(&mut self, fiber: usize, join: usize)
        ensures
            final(self)@ == old(self)@.holding(fiber, join),
    {
        self.removers.push((fiber, join));
    }

    /// Hands out the means of removing the observers.
    pub fn dismiss(&mut self) -> (removers: Vec<(usize, usize)>)
        ensures
            removers@ == old(self)@.removers,
            final(self)@ == old(self)@.dismissed(),
    {
        let mut removers: Vec<(usize, usize)> = Vec::new();
        std::mem::swap(&mut self.removers, &mut removers);
        removers
    }

    /// Counts a fiber that has ended. With the last one, whoever waits has to
    /// be told.
    pub fn acknowledge(&mut self) -> (last: bool)
        requires
            old(self)@.remaining > 0,
        ensures
            final(self)@ == old(self)@.after(1),
            last == (final(self)@.remaining == 0),
    {
        self.remaining = self.remaining - 1;
        self.remaining == 0
    }
}

} // verus!
