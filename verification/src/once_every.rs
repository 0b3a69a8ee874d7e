//! Rate limiting for commits: let an action through at most once per
//! interval.

use vstd::prelude::*;

verus! {

/// Lets an action through when at least `interval` time units have passed
/// since it last went through. Times are readings of one clock, in
/// whatever unit the caller uses throughout.
#[derive(Debug, Clone, Copy, PartialEq, Eq, Structural)]
pub struct OnceEvery {
    interval: u64,
    last: u64,
}

/// Whether the action is due at `now`, having last gone through at `last`.
/// A clock that has gone back counts as due, so that the action is never
/// held off for longer than one interval.
pub open spec fn due(interval: u64, last: u64, now: u64) -> bool {
    now < last || now - last >= interval
}

impl OnceEvery {
    /// The interval.
    pub closed spec fn interval(&self) -> u64 {
        self.interval
    }

    /// When the action last went through.
    pub closed spec fn last(&self) -> u64 {
        self.last
    }

    /// A limiter whose interval begins at `now`.
    pub fn new(interval: u64, now: u64) -> (limiter: Self)
        ensures
            limiter.interval() == interval,
            limiter.last() == now,
    {
        OnceEvery { interval, last: now }
    }

    /// Whether the action is due at `now`.
    pub fn is_due(&self, now: u64) -> (r: bool)
        ensures
            r == due(self.interval(), self.last(), now),
    {
        now < self.last || now - self.last >= self.interval
    }

    /// Notes that the action went through at `now`, due or not.
    pub fn mark(&mut self, now: u64)
        ensures
            final(self).interval() == old(self).interval(),
            final(self).last() == now,
    {
        self.last = now;
    }

    /// Lets the action through if it is due, and notes it.
    pub fn fire(&mut self, now: u64) -> (fired: bool)
        ensures
            fired == due(old(self).interval(), old(self).last(), now),
            final(self).interval() == old(self).interval(),
            final(self).last() == if fired {
                now
            } else {
                old(self).last()
            },
            fired && now >= old(self).last() ==> now - old(self).last() >= old(self).interval(),
    {
        if self.is_due(now) {
            self.last = now;
            true
        } else {
            false
        }
    }
}

} // verus!
