//! Runs with several measurers: the callback gets a slice of them and can time a different
//! part of its work with each, and the parts are added up measurer by measurer.

use vstd::prelude::*;
use std::time::{Duration, Instant};
use crate::measure_result::MeasureResult;
use crate::measurer::{Measurer, MeasurerView};
use crate::run::{
    ends_on_budget, lemma_capped_absorbs, sum_of, total_of, Repetition,
    DEFAULT_MEASURE_DURATION, DEFAULT_MEASURE_TIMES,
};
use crate::tally::Tally;
use crate::time::{duration_of_nanos, nanos_of, reaches};
use crate::BenchmarkError;

verus! {

/// One repetition of a callback that works with several measurers: the measurers as the
/// callback found them and as it left them.
pub struct WideRepetition {
    /// The measurers when the callback was called.
    pub before: Seq<MeasurerView>,
    /// The measurers when the callback returned.
    pub after: Seq<MeasurerView>,
}

/// What the measurers in `measurers` hold.
pub open spec fn views(measurers: Seq<Measurer>) -> Seq<MeasurerView> {
    Seq::new(measurers.len(), |j: int| measurers[j]@)
}

/// `n` measurers as a callback finds them at the start of repetition `seq`.
pub open spec fn fresh_row(n: nat, seq: nat) -> Seq<MeasurerView> {
    Seq::new(n, |j: int| MeasurerView::fresh(seq))
}

/// Whether none of the measurers in `row` has timed or passed anything yet.
pub open spec fn all_fresh(row: Seq<MeasurerView>) -> bool {
    forall|j: int| 0 <= j < row.len() ==> (#[trigger] row[j]).is_fresh()
}

/// Whether a callback left `n` measurers, each of them passed or with something timed.
pub open spec fn row_contributes(n: nat, row: Seq<MeasurerView>) -> bool {
    row.len() == n && forall|j: int| 0 <= j < n ==> (#[trigger] row[j]).contribution() is Some
}

/// Whether every repetition in `trace` left `n` measurers, each of them passed or with
/// something timed.
pub open spec fn all_rows_contribute(n: nat, trace: Seq<WideRepetition>) -> bool {
    forall|i: int| 0 <= i < trace.len() ==> row_contributes(n, (#[trigger] trace[i]).after)
}

/// The repetitions in `trace` as measurer `j` has seen them.
pub open spec fn slot(trace: Seq<WideRepetition>, j: int) -> Seq<Repetition> {
    Seq::new(
        trace.len(),
        |i: int| Repetition { before: trace[i].before[j], after: trace[i].after[j] },
    )
}

/// What a run with `n` measurers returns for the repetitions it made: for each measurer the
/// total of what it timed, or the error as soon as a repetition leaves one of the measurers
/// without a span and not passed.
pub open spec fn settles_n(
    n: nat,
    trace: Seq<WideRepetition>,
    r: Result<Vec<MeasureResult>, BenchmarkError>,
) -> bool {
    match r {
        Ok(totals) => {
            &&& all_rows_contribute(n, trace)
            &&& totals@.len() == n
            &&& forall|j: int| 0 <= j < n ==> (#[trigger] totals@[j])@ == total_of(slot(trace, j))
        },
        Err(_) => {
            &&& trace.len() >= 1
            &&& all_rows_contribute(n, trace.drop_last())
            &&& !row_contributes(n, trace.last().after)
        },
    }
}

/// One more repetition adds one more repetition to what each measurer has seen.
pub proof fn lemma_slot_push(trace: Seq<WideRepetition>, rep: WideRepetition, j: int)
    ensures
        slot(trace.push(rep), j) == slot(trace, j).push(
            Repetition { before: rep.before[j], after: rep.after[j] },
        ),
{
    assert(slot(trace.push(rep), j) =~= slot(trace, j).push(
        Repetition { before: rep.before[j], after: rep.after[j] },
    ));
}

/// Before the first repetition no measurer has seen anything.
pub proof fn lemma_empty_slots(n: nat)
    ensures
        forall|j: int| 0 <= j < n ==> total_of(#[trigger] slot(Seq::empty(), j)) == Tally::empty(),
{
    assert forall|j: int| 0 <= j < n implies total_of(#[trigger] slot(Seq::empty(), j))
        == Tally::empty() by {
        assert(slot(Seq::empty(), j) =~= Seq::<Repetition>::empty());
    }
}

/// `n` measurers, ready for the first repetition.
fn fresh_measurers(n: usize) -> (measurers: Vec<Measurer>)
    ensures
        measurers.len() == n,
        views(measurers@) == fresh_row(n as nat, 0),
{
    let mut measurers: Vec<Measurer> = Vec::new();
    let mut j: usize = 0;
    while j < n
        invariant
            j <= n,
            measurers.len() == j,
            forall|k: int| 0 <= k < j ==> (#[trigger] measurers[k])@ == MeasurerView::fresh(0),
        decreases n - j,
    {
        measurers.push(Measurer::default());
        j = j + 1;
    }
    assert(views(measurers@) =~= fresh_row(n as nat, 0));
    measurers
}

/// `n` results with nothing in them.
fn empty_totals(n: usize) -> (totals: Vec<MeasureResult>)
    ensures
        totals.len() == n,
        forall|j: int| 0 <= j < n ==> (#[trigger] totals[j])@ == Tally::empty(),
{
    let mut totals: Vec<MeasureResult> = Vec::new();
    let mut j: usize = 0;
    while j < n
        invariant
            j <= n,
            totals.len() == j,
            forall|k: int| 0 <= k < j ==> (#[trigger] totals[k])@ == Tally::empty(),
        decreases n - j,
    {
        totals.push(MeasureResult::empty());
        j = j + 1;
    }
    totals
}

/// One repetition: calls the callback on the measurers, ends the repetition for each of
/// them, adds what each has timed to its total and makes it ready for repetition `next`.
/// Returns the measurers as the callback left them. On an error the totals are worthless.
#[verifier::loop_isolation(false)]
fn repeat_once_n<F, O>(
    f: &mut F,
    measurers: &mut Vec<Measurer>,
    totals: &mut Vec<MeasureResult>,
    next: u128,
    Ghost(done): Ghost<Seq<WideRepetition>>,
) -> (r: (Result<(), BenchmarkError>, Ghost<WideRepetition>)) where F: FnMut(&mut [Measurer]) -> O
    requires
        all_fresh(views(old(measurers)@)),
        forall|m: &mut [Measurer]|
            m@.len() == old(measurers).len() && all_fresh(views(m@)) ==> call_requires(
                *old(f),
                (m,),
            ),
        old(totals).len() == old(measurers).len(),
        forall|j: int|
            0 <= j < old(totals).len() ==> (#[trigger] old(totals)[j])@ == total_of(slot(done, j)),
    ensures
        *final(f) == *old(f),
        r.1@.before == views(old(measurers)@),
        exists|m: &mut [Measurer], o: O|
            views(m@) == r.1@.before && views(final(m)@) == r.1@.after && call_ensures(
                *old(f),
                (m,),
                o,
            ),
        match r.0 {
            Ok(_) => {
                &&& row_contributes(old(measurers).len() as nat, r.1@.after)
                &&& final(measurers).len() == old(measurers).len()
                &&& views(final(measurers)@) == fresh_row(old(measurers).len() as nat, next as nat)
                &&& final(totals).len() == old(totals).len()
                &&& forall|j: int|
                    0 <= j < final(totals).len() ==> (#[trigger] final(totals)[j])@ == total_of(
                        slot(done.push(r.1@), j),
                    )
            },
            Err(_) => !row_contributes(old(measurers).len() as nat, r.1@.after),
        },
{
    let n: usize = measurers.len();
    let ghost before: Seq<MeasurerView> = views(measurers@);
    let o: O = std::hint::black_box(f(measurers.as_mut_slice()));
    let ghost after: Seq<MeasurerView> = views(measurers@);
    let ghost rep = WideRepetition { before, after };
    // A slice keeps its length, but nothing tells the verifier that the callback has left
    // it so: measurers that are missing have not measured.
    if measurers.len() != n {
        return (Err(BenchmarkError::MeasurerNotMeasured), Ghost(rep));
    }
    let mut j: usize = 0;
    while j < n
        invariant
            j <= n,
            measurers.len() == n,
            totals.len() == n,
            after.len() == n,
            rep == (WideRepetition { before, after }),
            forall|k: int|
                0 <= k < j ==> (#[trigger] measurers[k])@ == MeasurerView::fresh(next as nat),
            forall|k: int| 0 <= k < j ==> (#[trigger] after[k]).contribution() is Some,
            forall|k: int|
                0 <= k < j ==> (#[trigger] totals[k])@ == total_of(slot(done.push(rep), k)),
            forall|k: int| j <= k < n ==> (#[trigger] measurers[k])@ == after[k],
            forall|k: int| j <= k < n ==> (#[trigger] totals[k])@ == total_of(slot(done, k)),
        decreases n - j,
    {
        match measurers[j].conclude(next) {
            Ok(c) => {
                proof {
                    lemma_slot_push(done, rep, j as int);
                    assert(slot(done.push(rep), j as int).drop_last() == slot(done, j as int));
                    lemma_capped_absorbs(sum_of(slot(done, j as int)), c@);
                }
                let merged: MeasureResult = totals[j].merge(&c);
                totals[j] = merged;
            },
            Err(e) => {
                return (Err(e), Ghost(rep));
            },
        }
        j = j + 1;
    }
    assert(views(measurers@) =~= fresh_row(n as nat, next as nat));
    (Ok(()), Ghost(rep))
}

/// Run a function with a specific times and measure its execution time.
///
/// The callback is called `times` times on a slice of `n` measurers, which in repetition
/// `i` are fresh and have the sequence number `i`. The result holds for each measurer the
/// total of what it timed; a measurer that was passed adds nothing for that repetition. The
/// first repetition that leaves one of the measurers without a span and not passed ends the
/// run with the error.
pub fn measure_function_n_with_times<F, O>(n: usize, times: u64, f: F) -> (r: Result<
    Vec<MeasureResult>,
    BenchmarkError,
>) where F: FnMut(&mut [Measurer]) -> O + 'static
    requires
        times >= 1,
        forall|m: &mut [Measurer]|
            m@.len() == n && all_fresh(views(m@)) ==> call_requires(f, (m,)),
    ensures
        exists|trace: Seq<WideRepetition>|
            {
                &&& forall|i: int|
                    0 <= i < trace.len() ==> (#[trigger] trace[i]).before == fresh_row(
                        n as nat,
                        i as nat,
                    ) && exists|m: &mut [Measurer], o: O|
                        views(m@) == trace[i].before && views(final(m)@) == trace[i].after
                            && call_ensures(f, (m,), o)
                &&& settles_n(n as nat, trace, r)
                &&& trace.len() <= times
                &&& r is Ok ==> trace.len() == times
            },
{
    let mut callback: F = f;
    let mut measurers: Vec<Measurer> = fresh_measurers(n);
    let mut totals: Vec<MeasureResult> = empty_totals(n);
    let ghost mut trace: Seq<WideRepetition> = Seq::empty();
    proof {
        lemma_empty_slots(n as nat);
    }
    let mut i: u64 = 0;
    while i < times
        invariant
            i <= times,
            callback == f,
            forall|m: &mut [Measurer]|
                m@.len() == n && all_fresh(views(m@)) ==> call_requires(f, (m,)),
            measurers.len() == n,
            views(measurers@) == fresh_row(n as nat, i as nat),
            trace.len() == i,
            all_rows_contribute(n as nat, trace),
            totals.len() == n,
            forall|j: int| 0 <= j < n ==> (#[trigger] totals[j])@ == total_of(slot(trace, j)),
            forall|i: int|
                0 <= i < trace.len() ==> (#[trigger] trace[i]).before == fresh_row(
                    n as nat,
                    i as nat,
                ) && exists|m: &mut [Measurer], o: O|
                    views(m@) == trace[i].before && views(final(m)@) == trace[i].after
                        && call_ensures(f, (m,), o),
        decreases times - i,
    {
        let (rep, Ghost(row)) = repeat_once_n(
            &mut callback,
            &mut measurers,
            &mut totals,
            i as u128 + 1,
            Ghost(trace),
        );
        let ghost before = trace;
        proof {
            trace = before.push(row);
            assert(trace.drop_last() == before);
            assert forall|i: int| 0 <= i < trace.len() implies (#[trigger] trace[i]).before
                == fresh_row(n as nat, i as nat) && exists|m: &mut [Measurer], o: O|
                views(m@) == trace[i].before && views(final(m)@) == trace[i].after && call_ensures(
                    f,
                    (m,),
                    o,
                ) by {
                if i < before.len() {
                    assert(trace[i] == before[i]);
                }
            }
        }
        match rep {
            Ok(_) => {
                proof {
                    assert forall|i: int| 0 <= i < trace.len() implies row_contributes(
                        n as nat,
                        (#[trigger] trace[i]).after,
                    ) by {
                        if i < before.len() {
                            assert(trace[i] == before[i]);
                        }
                    }
                }
            },
            Err(e) => {
                proof {
                    assert(settles_n(n as nat, trace, Err(e)));
                }
                return Err(e);
            },
        }
        i = i + 1;
    }
    proof {
        assert(settles_n(n as nat, trace, Ok(totals)));
    }
    Ok(totals)
}

/// Run a function 10 times and measure its execution time.
pub fn measure_function_n<F, O>(n: usize, f: F) -> (r: Result<Vec<MeasureResult>, BenchmarkError>) where
    F: FnMut(&mut [Measurer]) -> O + 'static,

    requires
        forall|m: &mut [Measurer]|
            m@.len() == n && all_fresh(views(m@)) ==> call_requires(f, (m,)),
    ensures
        exists|trace: Seq<WideRepetition>|
            {
                &&& forall|i: int|
                    0 <= i < trace.len() ==> (#[trigger] trace[i]).before == fresh_row(
                        n as nat,
                        i as nat,
                    ) && exists|m: &mut [Measurer], o: O|
                        views(m@) == trace[i].before && views(final(m)@) == trace[i].after
                            && call_ensures(f, (m,), o)
                &&& settles_n(n as nat, trace, r)
                &&& trace.len() <= DEFAULT_MEASURE_TIMES
                &&& r is Ok ==> trace.len() == DEFAULT_MEASURE_TIMES
            },
{
    measure_function_n_with_times(n, DEFAULT_MEASURE_TIMES, f)
}

/// The run behind the functions that repeat a callback with several measurers for some
/// time. The clock that the budget is held against starts at `shared_start` where one is
/// given, and else after the first repetition.
fn repeat_for_n<F, O>(n: usize, shared_start: Option<Instant>, duration: Duration, f: F) -> (r:
    Result<Vec<MeasureResult>, BenchmarkError>) where F: FnMut(&mut [Measurer]) -> O
    requires
        forall|m: &mut [Measurer]|
            m@.len() == n && all_fresh(views(m@)) ==> call_requires(f, (m,)),
    ensures
        exists|trace: Seq<WideRepetition>|
            {
                &&& forall|i: int|
                    0 <= i < trace.len() ==> (#[trigger] trace[i]).before == fresh_row(
                        n as nat,
                        i as nat,
                    ) && exists|m: &mut [Measurer], o: O|
                        views(m@) == trace[i].before && views(final(m)@) == trace[i].after
                            && call_ensures(f, (m,), o)
                &&& settles_n(n as nat, trace, r)
                &&& r is Ok ==> trace.len() >= 2
                &&& exists|readings: Seq<nat>|
                    #[trigger] readings.len() == trace.len() && ends_on_budget(
                        readings,
                        nanos_of(duration),
                        r is Ok,
                    )
            },
{
    let mut callback: F = f;
    let mut measurers: Vec<Measurer> = fresh_measurers(n);
    let mut totals: Vec<MeasureResult> = empty_totals(n);
    let ghost mut trace: Seq<WideRepetition> = Seq::empty();
    proof {
        lemma_empty_slots(n as nat);
    }
    let ghost mut readings: Seq<nat> = Seq::empty();
    let mut start: Option<Instant> = shared_start;
    let mut seq: u128 = 0;
    let mut spent: bool = false;
    while !spent
        invariant
            !spent ==> seq < u128::MAX,
            spent ==> seq >= 2,
            seq >= 1 ==> start is Some,
            readings.len() == seq,
            forall|i: int| 1 <= i < readings.len() - 1 ==> #[trigger] readings[i] < nanos_of(duration),
            !spent && seq >= 2 ==> readings.last() < nanos_of(duration),
            spent ==> readings.last() >= nanos_of(duration) || seq == u128::MAX,
            callback == f,
            forall|m: &mut [Measurer]|
                m@.len() == n && all_fresh(views(m@)) ==> call_requires(f, (m,)),
            measurers.len() == n,
            views(measurers@) == fresh_row(n as nat, seq as nat),
            trace.len() == seq,
            all_rows_contribute(n as nat, trace),
            totals.len() == n,
            forall|j: int| 0 <= j < n ==> (#[trigger] totals[j])@ == total_of(slot(trace, j)),
            forall|i: int|
                0 <= i < trace.len() ==> (#[trigger] trace[i]).before == fresh_row(
                    n as nat,
                    i as nat,
                ) && exists|m: &mut [Measurer], o: O|
                    views(m@) == trace[i].before && views(final(m)@) == trace[i].after
                        && call_ensures(f, (m,), o),
        decreases
            if spent {
                0
            } else {
                u128::MAX - seq
            },
    {
        let (rep, Ghost(row)) = repeat_once_n(
            &mut callback,
            &mut measurers,
            &mut totals,
            seq + 1,
            Ghost(trace),
        );
        let ghost before = trace;
        proof {
            trace = before.push(row);
            assert(trace.drop_last() == before);
            assert forall|i: int| 0 <= i < trace.len() implies (#[trigger] trace[i]).before
                == fresh_row(n as nat, i as nat) && exists|m: &mut [Measurer], o: O|
                views(m@) == trace[i].before && views(final(m)@) == trace[i].after && call_ensures(
                    f,
                    (m,),
                    o,
                ) by {
                if i < before.len() {
                    assert(trace[i] == before[i]);
                }
            }
        }
        match rep {
            Ok(_) => {
                proof {
                    assert forall|i: int| 0 <= i < trace.len() implies row_contributes(
                        n as nat,
                        (#[trigger] trace[i]).after,
                    ) by {
                        if i < before.len() {
                            assert(trace[i] == before[i]);
                        }
                    }
                }
            },
            Err(e) => {
                proof {
                    let unread = readings.push(0);
                    assert(unread.len() == trace.len());
                    assert(ends_on_budget(unread, nanos_of(duration), false));
                    assert(settles_n(n as nat, trace, Err(e)));
                }
                return Err(e);
            },
        }
        seq = seq + 1;
        if seq == 1 {
            if start.is_none() {
                start = Some(Instant::now());
            }
            proof {
                readings = readings.push(0);
            }
        } else {
            let passed: Duration = start.unwrap().elapsed();
            spent = reaches(&passed, &duration) || seq == u128::MAX;
            proof {
                readings = readings.push(nanos_of(passed));
            }
        }
    }
    proof {
        assert(readings.len() == trace.len());
        assert(ends_on_budget(readings, nanos_of(duration), true));
        assert(settles_n(n as nat, trace, Ok(totals)));
    }
    Ok(totals)
}

/// Run a function with a specific duration and measure its execution time.
///
/// The callback is called once on a slice of `n` measurers, and then again and again until
/// `duration` has passed since the end of that first call; the clock is read after each
/// call but the first, so the callback is called at least twice. The result holds for each
/// measurer the total of what it timed; the first repetition that leaves one of the
/// measurers without a span and not passed ends the run with the error. (The run also ends
/// when the sequence numbers are used up.)
pub fn bench_function_n_with_duration<F, O>(n: usize, duration: Duration, f: F) -> (r: Result<
    Vec<MeasureResult>,
    BenchmarkError,
>) where F: FnMut(&mut [Measurer]) -> O + 'static
    requires
        forall|m: &mut [Measurer]|
            m@.len() == n && all_fresh(views(m@)) ==> call_requires(f, (m,)),
    ensures
        exists|trace: Seq<WideRepetition>|
            {
                &&& forall|i: int|
                    0 <= i < trace.len() ==> (#[trigger] trace[i]).before == fresh_row(
                        n as nat,
                        i as nat,
                    ) && exists|m: &mut [Measurer], o: O|
                        views(m@) == trace[i].before && views(final(m)@) == trace[i].after
                            && call_ensures(f, (m,), o)
                &&& settles_n(n as nat, trace, r)
                &&& r is Ok ==> trace.len() >= 2
                &&& exists|readings: Seq<nat>|
                    #[trigger] readings.len() == trace.len() && ends_on_budget(
                        readings,
                        nanos_of(duration),
                        r is Ok,
                    )
            },
{
    repeat_for_n(n, None, duration, f)
}

/// Run a function for 5 seconds and measure its execution time.
pub fn bench_function_n<F, O>(n: usize, f: F) -> (r: Result<Vec<MeasureResult>, BenchmarkError>) where
    F: FnMut(&mut [Measurer]) -> O + 'static,

    requires
        forall|m: &mut [Measurer]|
            m@.len() == n && all_fresh(views(m@)) ==> call_requires(f, (m,)),
    ensures
        exists|trace: Seq<WideRepetition>|
            {
                &&& forall|i: int|
                    0 <= i < trace.len() ==> (#[trigger] trace[i]).before == fresh_row(
                        n as nat,
                        i as nat,
                    ) && exists|m: &mut [Measurer], o: O|
                        views(m@) == trace[i].before && views(final(m)@) == trace[i].after
                            && call_ensures(f, (m,), o)
                &&& settles_n(n as nat, trace, r)
                &&& r is Ok ==> trace.len() >= 2
                &&& exists|readings: Seq<nat>|
                    #[trigger] readings.len() == trace.len() && ends_on_budget(
                        readings,
                        (DEFAULT_MEASURE_DURATION * 1_000_000) as nat,
                        r is Ok,
                    )
            },
{
    bench_function_n_with_duration(
        n,
        duration_of_nanos(DEFAULT_MEASURE_DURATION as u128 * 1_000_000),
        f,
    )
}

/// The part of one thread in a run that several threads make side by side: as
/// `bench_function_n_with_duration`, but the budget is held against a clock that was
/// started at `start`, before the threads were, and is the same for all of them.
pub fn bench_function_n_since<F, O>(n: usize, start: Instant, duration: Duration, f: F) -> (r:
    Result<Vec<MeasureResult>, BenchmarkError>) where F: FnMut(&mut [Measurer]) -> O
    requires
        forall|m: &mut [Measurer]|
            m@.len() == n && all_fresh(views(m@)) ==> call_requires(f, (m,)),
    ensures
        exists|trace: Seq<WideRepetition>|
            {
                &&& forall|i: int|
                    0 <= i < trace.len() ==> (#[trigger] trace[i]).before == fresh_row(
                        n as nat,
                        i as nat,
                    ) && exists|m: &mut [Measurer], o: O|
                        views(m@) == trace[i].before && views(final(m)@) == trace[i].after
                            && call_ensures(f, (m,), o)
                &&& settles_n(n as nat, trace, r)
                &&& r is Ok ==> trace.len() >= 2
                &&& exists|readings: Seq<nat>|
                    #[trigger] readings.len() == trace.len() && ends_on_budget(
                        readings,
                        nanos_of(duration),
                        r is Ok,
                    )
            },
{
    repeat_for_n(n, Some(start), duration, f)
}

} // verus!
