//! Putting together what several threads have measured side by side.
//!
//! Each thread makes a run of its own and hands in its result. The counts of all threads
//! are added up. Their times are added up too and then divided by the number of threads,
//! once: the total is the time that one thread has spent on its share of the spans.

use vstd::prelude::*;
use crate::measure_result::MeasureResult;
use crate::run::lemma_capped_absorbs;
use crate::tally::Tally;
use crate::BenchmarkError;

verus! {

/// The exact sum of the tallies in `parts`.
pub open spec fn sum_of_parts(parts: Seq<Tally>) -> Tally
    decreases parts.len(),
{
    if parts.len() == 0 {
        Tally::empty()
    } else {
        sum_of_parts(parts.drop_last()).plus(parts.last())
    }
}

/// What the threads that handed in `parts` have measured together, seen from one of them.
pub open spec fn threads_total(parts: Seq<Tally>) -> Tally
    recommends
        parts.len() > 0,
{
    sum_of_parts(parts).capped().per_thread(parts.len())
}

/// What the threads have handed in, where all of them have a result.
pub open spec fn parts_of(results: Seq<Result<MeasureResult, BenchmarkError>>) -> Seq<Tally> {
    Seq::new(results.len(), |i: int| results[i]->Ok_0@)
}

/// What the threads have handed in for measurer `j`, where all of them have a result.
pub open spec fn parts_of_slot(
    results: Seq<Result<Vec<MeasureResult>, BenchmarkError>>,
    j: int,
) -> Seq<Tally> {
    Seq::new(results.len(), |i: int| results[i]->Ok_0@[j]@)
}

/// Whether thread `i` has handed in a result for each of `n` measurers.
pub open spec fn is_complete(
    results: Seq<Result<Vec<MeasureResult>, BenchmarkError>>,
    i: int,
    n: nat,
) -> bool {
    results[i] matches Ok(totals) && totals@.len() == n
}

/// Puts the results of the threads of one run together, one result for each thread (the
/// calling thread's own is one of them). If a thread has failed, the run has.
pub fn merge_thread_results(results: &Vec<Result<MeasureResult, BenchmarkError>>) -> (r: Result<
    MeasureResult,
    BenchmarkError,
>)
    requires
        results.len() > 0,
    ensures
        match r {
            Ok(total) => {
                &&& forall|i: int| 0 <= i < results.len() ==> (#[trigger] results[i]) is Ok
                &&& total@ == threads_total(parts_of(results@))
            },
            Err(_) => exists|i: int| 0 <= i < results.len() && (#[trigger] results[i]) is Err,
        },
{
    let threads: usize = results.len();
    let mut sum: MeasureResult = MeasureResult::empty();
    let mut i: usize = 0;
    while i < threads
        invariant
            i <= threads,
            threads == results.len(),
            forall|k: int| 0 <= k < i ==> (#[trigger] results[k]) is Ok,
            sum@ == sum_of_parts(parts_of(results@).take(i as int)).capped(),
        decreases threads - i,
    {
        match &results[i] {
            Ok(part) => {
                proof {
                    let parts = parts_of(results@);
                    assert(parts.take(i + 1).drop_last() == parts.take(i as int));
                    lemma_capped_absorbs(sum_of_parts(parts.take(i as int)), part@);
                }
                sum = sum.merge(part);
            },
            Err(_) => {
                return Err(BenchmarkError::MeasurerNotMeasured);
            },
        }
        i = i + 1;
    }
    proof {
        let parts = parts_of(results@);
        assert(parts.take(threads as int) == parts);
    }
    Ok(sum.per_thread(threads))
}

/// Puts the results of the threads of one run with `n` measurers together, measurer by
/// measurer. If a thread has failed, or has not handed in a result for each measurer, the
/// run has failed.
pub fn merge_thread_results_n(
    n: usize,
    results: &Vec<Result<Vec<MeasureResult>, BenchmarkError>>,
) -> (r: Result<Vec<MeasureResult>, BenchmarkError>)
    requires
        results.len() > 0,
    ensures
        match r {
            Ok(totals) => {
                &&& forall|i: int| 0 <= i < results.len() ==> is_complete(results@, i, n as nat)
                &&& totals.len() == n
                &&& forall|j: int|
                    0 <= j < n ==> (#[trigger] totals[j])@ == threads_total(
                        parts_of_slot(results@, j),
                    )
            },
            Err(_) => exists|i: int|
                0 <= i < results.len() && !is_complete(results@, i, n as nat),
        },
{
    let threads: usize = results.len();
    let mut i: usize = 0;
    while i < threads
        invariant
            i <= threads,
            threads == results.len(),
            forall|k: int| 0 <= k < i ==> is_complete(results@, k, n as nat),
        decreases threads - i,
    {
        let complete: bool = match &results[i] {
            Ok(part) => part.len() == n,
            Err(_) => false,
        };
        if !complete {
            assert(!is_complete(results@, i as int, n as nat));
            return Err(BenchmarkError::MeasurerNotMeasured);
        }
        i = i + 1;
    }
    let mut totals: Vec<MeasureResult> = Vec::new();
    let mut j: usize = 0;
    while j < n
        invariant
            j <= n,
            threads == results.len(),
            threads > 0,
            totals.len() == j,
            forall|k: int| 0 <= k < threads ==> is_complete(results@, k, n as nat),
            forall|k: int|
                0 <= k < j ==> (#[trigger] totals[k])@ == threads_total(parts_of_slot(results@, k)),
        decreases n - j,
    {
        let mut sum: MeasureResult = MeasureResult::empty();
        let mut i: usize = 0;
        while i < threads
            invariant
                i <= threads,
                j < n,
                threads == results.len(),
                forall|k: int| 0 <= k < threads ==> is_complete(results@, k, n as nat),
                sum@ == sum_of_parts(parts_of_slot(results@, j as int).take(i as int)).capped(),
            decreases threads - i,
        {
            assert(is_complete(results@, i as int, n as nat));
            match &results[i] {
                Ok(part) => {
                    proof {
                        let parts = parts_of_slot(results@, j as int);
                        assert(parts.take(i + 1).drop_last() == parts.take(i as int));
                        lemma_capped_absorbs(sum_of_parts(parts.take(i as int)), part[j as int]@);
                    }
                    sum = sum.merge(&part[j]);
                },
                Err(_) => {},
            }
            i = i + 1;
        }
        proof {
            let parts = parts_of_slot(results@, j as int);
            assert(parts.take(threads as int) == parts);
        }
        totals.push(sum.per_thread(threads));
        j = j + 1;
    }
    Ok(totals)
}

} // verus!
