//! The arithmetic of measurement totals, on unbounded numbers.

use vstd::prelude::*;
use crate::time::MAX_NANOS;

verus! {

/// How many spans were timed and how long they took together.
pub struct Tally {
    /// The number of spans.
    pub count: nat,
    /// The sum of their lengths, in nanoseconds.
    pub nanos: nat,
}

impl Tally {
    /// Nothing was timed.
    pub open spec fn empty() -> Tally {
        Tally { count: 0, nanos: 0 }
    }

    /// One span of the given length.
    pub open spec fn single(nanos: nat) -> Tally {
        Tally { count: 1, nanos }
    }

    /// The exact sum of two tallies.
    pub open spec fn plus(self, other: Tally) -> Tally {
        Tally { count: self.count + other.count, nanos: self.nanos + other.nanos }
    }

    /// Whether the tally can be stored: the count in a `u128`, the time in a `Duration`.
    pub open spec fn storable(self) -> bool {
        self.count <= u128::MAX && self.nanos <= MAX_NANOS
    }

    /// The tally as it is stored: a count or a time too large to be held is replaced by the
    /// largest one that can be.
    pub open spec fn capped(self) -> Tally {
        Tally {
            count: if self.count <= u128::MAX { self.count } else { u128::MAX as nat },
            nanos: if self.nanos <= MAX_NANOS { self.nanos } else { MAX_NANOS as nat },
        }
    }

    /// Two tallies added up, as stored.
    pub open spec fn merge(self, other: Tally) -> Tally {
        self.plus(other).capped()
    }

    /// The average length of a span in whole nanoseconds. Meaningful for `count > 0` only.
    pub open spec fn average(self) -> nat
        recommends
            self.count > 0,
    {
        self.nanos / self.count
    }

    /// The tally of several threads that ran side by side, seen from one of them: all
    /// their spans, and the time one thread spent on its share.
    pub open spec fn per_thread(self, threads: nat) -> Tally
        recommends
            threads > 0,
    {
        Tally { count: self.count, nanos: self.nanos / threads }
    }

    /// Whether the tally is one that a measurement can have: without spans, no time.
    pub open spec fn wf(self) -> bool {
        self.count == 0 ==> self.nanos == 0
    }
}

} // verus!
