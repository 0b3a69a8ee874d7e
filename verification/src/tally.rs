//! Counters that are exact in contracts and saturate in memory.

use vstd::prelude::*;

verus! {

/// What a counter shows for an exact count: the count itself, or
/// `u64::MAX` once the count no longer fits.
pub open spec fn shown(exact: nat) -> u64 {
    if exact <= u64::MAX {
        exact as u64
    } else {
        u64::MAX
    }
}

/// An event counter. Contracts speak of the exact count; the number that
/// can be read at run time is the count up to `u64::MAX`.
pub struct Tally {
    shown: u64,
    exact: Ghost<nat>,
}

impl Tally {
    /// The exact count.
    pub closed spec fn view(&self) -> nat {
        self.exact@
    }

    /// The number in memory is what the exact count shows.
    pub closed spec fn wf(&self) -> bool {
        self.shown == shown(self.exact@)
    }

    /// A counter at zero.
    pub fn new() -> (tally: Self)
        ensures
            tally.wf(),
            tally@ == 0,
    {
        Tally { shown: 0, exact: Ghost(0) }
    }

    /// Counts `n` more events.
    pub fn add(&mut self, n: usize)
        requires
            old(self).wf(),
        ensures
            final(self).wf(),
            final(self)@ == old(self)@ + n,
    {
        let more: u64 = n as u64;
        if more <= u64::MAX - self.shown {
            self.shown = self.shown + more;
        } else {
            self.shown = u64::MAX;
        }
        self.exact = Ghost((self.exact@ + n) as nat);
    }

    /// Reads the counter.
    pub fn get(&self) -> (n: u64)
        requires
            self.wf(),
        ensures
            n == shown(self@),
    {
        self.shown
    }
}

} // verus!
