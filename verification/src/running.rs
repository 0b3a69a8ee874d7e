//! The two pieces of state that the indexing side shares with its
//! surroundings: the one-way running flag and the indexed-file counter.

use vstd::prelude::*;

verus! {

/// Cooperative cancellation flag. It starts out running and can only ever
/// be switched off; nothing switches it back on.
pub struct RunningFlag {
    running: bool,
}

impl RunningFlag {
    /// Whether the flag still says "running".
    pub closed spec fn view(&self) -> bool {
        self.running
    }

    /// A fresh flag, running.
    pub fn new() -> (flag: Self)
        ensures
            flag@,
    {
        RunningFlag { running: true }
    }

    /// Reads the flag.
    pub fn is_running(&self) -> (r: bool)
        ensures
            r == self@,
    {
        self.running
    }

    /// Requests cancellation. Returns whether this call made the
    /// transition, so that exactly one caller observes `true`.
    pub fn stop(&mut self) -> (flipped: bool)
        ensures
            !final(self)@,
            flipped == old(self)@,
    {
        let was: bool = self.running;
        self.running = false;
        was
    }
}

/// Count of files handed to the indexer, shown to the user while the run
/// is in progress. It only grows, and it stops at `usize::MAX`.
pub struct Progress {
    indexed: usize,
}

impl Progress {
    /// The number shown.
    pub closed spec fn view(&self) -> nat {
        self.indexed as nat
    }

    /// A counter seeded with the number of files already known.
    pub fn starting_at(known: usize) -> (p: Self)
        ensures
            p@ == known,
    {
        Progress { indexed: known }
    }

    /// Reads the counter.
    pub fn indexed_files(&self) -> (n: usize)
        ensures
            n == self@,
    {
        self.indexed
    }

    /// Counts one more file.
    pub fn increment(&mut self)
        ensures
            final(self)@ == if old(self)@ < usize::MAX {
                old(self)@ + 1
            } else {
                old(self)@
            },
            final(self)@ >= old(self)@,
    {
        if self.indexed < usize::MAX {
            self.indexed = self.indexed + 1;
        }
    }
}

} // verus!
