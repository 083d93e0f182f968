//! The totals of a measurement.

use vstd::prelude::*;
use std::time::Duration;
use crate::tally::Tally;
use crate::time::{duration_of_nanos, nanos_of, subsecond_nanos, total_nanos, MAX_NANOS};

verus! {

/// The result of measurement: how many spans were timed, and how long they took in all.
#[derive(Debug)]
pub struct MeasureResult {
    pub(crate) times: u128,
    pub(crate) total_elapsed: Duration,
}

impl View for MeasureResult {
    type V = Tally;

    closed spec fn view(&self) -> Tally {
        Tally { count: self.times as nat, nanos: nanos_of(self.total_elapsed) }
    }
}

impl Clone for MeasureResult {
    fn clone(&self) -> (r: MeasureResult)
        ensures
            r == *self,
    {
        proof {
            use_type_invariant(self);
        }
        MeasureResult { times: self.times, total_elapsed: self.total_elapsed }
    }
}

impl MeasureResult {
    /// A result without spans has taken no time.
    #[verifier::type_invariant]
    closed spec fn holds_no_time_without_spans(self) -> bool {
        self.times == 0 ==> nanos_of(self.total_elapsed) == 0
    }

    /// The result of timing one span that took `elapsed`.
    pub fn new(elapsed: Duration) -> (r: MeasureResult)
        ensures
            r@ == Tally::single(nanos_of(elapsed)),
            r@.wf(),
    {
        MeasureResult { times: 1, total_elapsed: elapsed }
    }

    /// The result of timing nothing.
    pub fn empty() -> (r: MeasureResult)
        ensures
            r@ == Tally::empty(),
            r@.wf(),
    {
        MeasureResult { times: 0, total_elapsed: Duration::new(0, 0) }
    }

    /// Adds up two results: the counts and the times. A sum too large to be held stays at
    /// the largest count, or the longest time, that can be.
    pub fn merge(&self, other: &MeasureResult) -> (r: MeasureResult)
        ensures
            r@ == self@.merge(other@),
            r@.wf(),
    {
        proof {
            use_type_invariant(self);
            use_type_invariant(other);
        }
        let times: u128 = self.times.saturating_add(other.times);
        let sum: u128 = total_nanos(&self.total_elapsed) + total_nanos(&other.total_elapsed);
        let nanos: u128 = if sum <= MAX_NANOS { sum } else { MAX_NANOS };
        MeasureResult { times, total_elapsed: duration_of_nanos(nanos) }
    }

    /// Determine how long does an iteration take on average: the total time divided by the
    /// number of spans, in whole nanoseconds.
    pub fn elapsed(&self) -> (d: Duration)
        requires
            self@.count > 0,
        ensures
            nanos_of(d) == self@.average(),
            subsecond_nanos(d) < 1_000_000_000,
    {
        let nano_secs: u128 = total_nanos(&self.total_elapsed) / self.times;
        duration_of_nanos(nano_secs)
    }

    /// Get how many times the measurements has been executed.
    pub fn times(&self) -> (n: u128)
        ensures
            n == self@.count,
            self@.wf(),
    {
        proof {
            use_type_invariant(self);
        }
        self.times
    }

    /// Get how long has all measurements elapsed.
    pub fn total_elapsed(&self) -> (d: Duration)
        ensures
            nanos_of(d) == self@.nanos,
            self@.wf(),
    {
        proof {
            use_type_invariant(self);
        }
        self.total_elapsed
    }

    /// The result as one of `threads` threads, which ran side by side, has seen it: the
    /// count is kept, the time is divided by the number of threads.
    pub fn per_thread(&self, threads: usize) -> (r: MeasureResult)
        requires
            threads > 0,
        ensures
            r@ == self@.per_thread(threads as nat),
            r@.wf(),
    {
        proof {
            use_type_invariant(self);
        }
        let nanos: u128 = total_nanos(&self.total_elapsed) / (threads as u128);
        MeasureResult { times: self.times, total_elapsed: duration_of_nanos(nanos) }
    }
}

} // verus!
