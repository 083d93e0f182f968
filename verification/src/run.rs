//! Runs with one measurer: a callback is repeated, and what each repetition timed is added
//! up.

use vstd::prelude::*;
use std::time::{Duration, Instant};
use crate::measure_result::MeasureResult;
use crate::measurer::{Measurer, MeasurerView};
use crate::tally::Tally;
use crate::time::{duration_of_nanos, nanos_of, reaches};
use crate::BenchmarkError;

verus! {

/// How often `measure_function` repeats the callback.
pub const DEFAULT_MEASURE_TIMES: u64 = 10;

/// How long `bench_function` keeps repeating the callback, in milliseconds.
pub const DEFAULT_MEASURE_DURATION: u64 = 5000;

/// One repetition of a callback, seen from outside: the measurer as the callback found it
/// and as it left it.
pub struct Repetition {
    /// The measurer when the callback was called.
    pub before: MeasurerView,
    /// The measurer when the callback returned.
    pub after: MeasurerView,
}

/// The exact sum of what the repetitions in `trace` add to a total. A repetition that adds
/// nothing, or that failed, counts as empty.
pub open spec fn sum_of(trace: Seq<Repetition>) -> Tally
    decreases trace.len(),
{
    if trace.len() == 0 {
        Tally::empty()
    } else {
        sum_of(trace.drop_last()).plus(
            match trace.last().after.contribution() {
                Some(t) => t,
                None => Tally::empty(),
            },
        )
    }
}

/// The total of the repetitions in `trace`, as it is stored.
pub open spec fn total_of(trace: Seq<Repetition>) -> Tally {
    sum_of(trace).capped()
}

/// Whether every repetition in `trace` was passed or timed something.
pub open spec fn all_contribute(trace: Seq<Repetition>) -> bool {
    forall|i: int| 0 <= i < trace.len() ==> (#[trigger] trace[i]).after.contribution() is Some
}

/// What a run returns for the repetitions it made, where `trace` holds the measurer as
/// each repetition left it: the total of all of them, or the error as soon as one of them
/// neither timed anything nor was passed, whatever the earlier ones had added up.
pub open spec fn settles(trace: Seq<Repetition>, r: Result<MeasureResult, BenchmarkError>) -> bool {
    match r {
        Ok(total) => all_contribute(trace) && total@ == total_of(trace),
        Err(_) => trace.len() >= 1 && all_contribute(trace.drop_last())
            && trace.last().after.contribution() is None,
    }
}

/// Whether a run that is bounded by time has gone on for as long as it had to, and no
/// longer. `readings[i]` is the time that the clock showed when repetition `i` was over;
/// the clock is not read after the first repetition, so `readings[0]` says nothing. A run
/// goes on while the clock shows less than `budget`, and a run that is `complete`, that has
/// not failed, has ended with a reading that reaches the budget (or with the last of the
/// sequence numbers).
pub open spec fn ends_on_budget(readings: Seq<nat>, budget: nat, complete: bool) -> bool {
    &&& forall|i: int| 1 <= i < readings.len() - 1 ==> #[trigger] readings[i] < budget
    &&& complete ==> readings.len() >= 2 && (readings.last() >= budget || readings.len()
        == u128::MAX)
}

/// Storing a sum does not depend on whether the part added up so far was stored already.
pub proof fn lemma_capped_absorbs(a: Tally, b: Tally)
    ensures
        a.capped().plus(b).capped() == a.plus(b).capped(),
{
}

/// One repetition: calls the callback on the measurer, ends the repetition and makes the
/// measurer ready for repetition `next`. Returns what the repetition adds to the total, and
/// the measurer as the callback left it.
fn repeat_once<F, O>(f: &mut F, measurer: &mut Measurer, next: u128) -> (r: (
    Result<MeasureResult, BenchmarkError>,
    Ghost<MeasurerView>,
)) where F: FnMut(&mut Measurer) -> O
    requires
        old(measurer)@.is_fresh(),
        forall|m: &mut Measurer| m@.is_fresh() ==> call_requires(*old(f), (m,)),
    ensures
        *final(f) == *old(f),
        final(measurer)@ == MeasurerView::fresh(next as nat),
        exists|m: &mut Measurer, o: O|
            m@ == old(measurer)@ && final(m)@ == r.1@ && call_ensures(*old(f), (m,), o),
        match r.0 {
            Ok(c) => r.1@.contribution() == Some(c@),
            Err(_) => r.1@.contribution() is None,
        },
{
    let o: O = std::hint::black_box(f(measurer));
    let ghost after: MeasurerView = measurer@;
    let c = measurer.conclude(next);
    (c, Ghost(after))
}

/// Run a function with a specific times and measure its execution time.
///
/// The callback is called `times` times, in repetition `i` on a fresh measurer whose
/// sequence number is `i`. The result is the total of what the repetitions timed; a
/// repetition that was passed adds nothing. The first repetition that neither times
/// anything nor is passed ends the run with the error.
pub fn measure_function_with_times<F, O>(times: u64, f: F) -> (r: Result<
    MeasureResult,
    BenchmarkError,
>) where F: FnMut(&mut Measurer) -> O + 'static
    requires
        times >= 1,
        forall|m: &mut Measurer| m@.is_fresh() ==> call_requires(f, (m,)),
    ensures
        exists|trace: Seq<Repetition>|
            {
                &&& forall|i: int|
                    0 <= i < trace.len() ==> (#[trigger] trace[i]).before == MeasurerView::fresh(
                        i as nat,
                    ) && exists|m: &mut Measurer, o: O|
                        m@ == trace[i].before && final(m)@ == trace[i].after && call_ensures(
                            f,
                            (m,),
                            o,
                        )
                &&& settles(trace, r)
                &&& trace.len() <= times
                &&& r is Ok ==> trace.len() == times
            },
{
    let mut callback: F = f;
    let mut measurer: Measurer = Measurer::default();
    let mut total: MeasureResult = MeasureResult::empty();
    let ghost mut trace: Seq<Repetition> = Seq::empty();
    let mut i: u64 = 0;
    while i < times
        invariant
            i <= times,
            callback == f,
            forall|m: &mut Measurer| m@.is_fresh() ==> call_requires(f, (m,)),
            measurer@ == MeasurerView::fresh(i as nat),
            trace.len() == i,
            all_contribute(trace),
            total@ == total_of(trace),
            forall|j: int|
                0 <= j < trace.len() ==> (#[trigger] trace[j]).before == MeasurerView::fresh(
                    j as nat,
                ) && exists|m: &mut Measurer, o: O|
                    m@ == trace[j].before && final(m)@ == trace[j].after && call_ensures(
                        f,
                        (m,),
                        o,
                    ),
        decreases times - i,
    {
        let (rep, Ghost(after)) = repeat_once(&mut callback, &mut measurer, i as u128 + 1);
        let ghost before = trace;
        proof {
            trace = before.push(Repetition { before: MeasurerView::fresh(i as nat), after });
            assert(trace.drop_last() == before);
            assert forall|j: int| 0 <= j < trace.len() implies (#[trigger] trace[j]).before
                == MeasurerView::fresh(j as nat) && exists|m: &mut Measurer, o: O|
                m@ == trace[j].before && final(m)@ == trace[j].after && call_ensures(f, (m,), o) by {
                if j < before.len() {
                    assert(trace[j] == before[j]);
                }
            }
        }
        match rep {
            Ok(c) => {
                proof {
                    lemma_capped_absorbs(sum_of(before), c@);
                }
                total = total.merge(&c);
            },
            Err(e) => {
                proof {
                    assert(settles(trace, Err(e)));
                }
                return Err(e);
            },
        }
        i = i + 1;
    }
    proof {
        assert(settles(trace, Ok(total)));
    }
    Ok(total)
}

/// Run a function 10 times and measure its execution time.
pub fn measure_function<F, O>(f: F) -> (r: Result<MeasureResult, BenchmarkError>) where
    F: FnMut(&mut Measurer) -> O + 'static,

    requires
        forall|m: &mut Measurer| m@.is_fresh() ==> call_requires(f, (m,)),
    ensures
        exists|trace: Seq<Repetition>|
            {
                &&& forall|i: int|
                    0 <= i < trace.len() ==> (#[trigger] trace[i]).before == MeasurerView::fresh(
                        i as nat,
                    ) && exists|m: &mut Measurer, o: O|
                        m@ == trace[i].before && final(m)@ == trace[i].after && call_ensures(
                            f,
                            (m,),
                            o,
                        )
                &&& settles(trace, r)
                &&& trace.len() <= DEFAULT_MEASURE_TIMES
                &&& r is Ok ==> trace.len() == DEFAULT_MEASURE_TIMES
            },
{
    measure_function_with_times(DEFAULT_MEASURE_TIMES, f)
}

/// The run behind the functions that repeat a callback for some time. The clock that the
/// budget is held against starts at `shared_start` where one is given, and else after the
/// first repetition.
fn repeat_for<F, O>(shared_start: Option<Instant>, duration: Duration, f: F) -> (r: Result<
    MeasureResult,
    BenchmarkError,
>) where F: FnMut(&mut Measurer) -> O
    requires
        forall|m: &mut Measurer| m@.is_fresh() ==> call_requires(f, (m,)),
    ensures
        exists|trace: Seq<Repetition>|
            {
                &&& forall|i: int|
                    0 <= i < trace.len() ==> (#[trigger] trace[i]).before == MeasurerView::fresh(
                        i as nat,
                    ) && exists|m: &mut Measurer, o: O|
                        m@ == trace[i].before && final(m)@ == trace[i].after && call_ensures(
                            f,
                            (m,),
                            o,
                        )
                &&& settles(trace, r)
                &&& r is Ok ==> trace.len() >= 2
                &&& exists|readings: Seq<nat>|
                    #[trigger] readings.len() == trace.len() && ends_on_budget(
                        readings,
                        nanos_of(duration),
                        r is Ok,
                    )
            },
{
    let mut callback: F = f;
    let mut measurer: Measurer = Measurer::default();
    let mut total: MeasureResult = MeasureResult::empty();
    let ghost mut trace: Seq<Repetition> = Seq::empty();
    let ghost mut readings: Seq<nat> = Seq::empty();
    let mut start: Option<Instant> = shared_start;
    let mut seq: u128 = 0;
    let mut spent: bool = false;
    while !spent
        invariant
            !spent ==> seq < u128::MAX,
            spent ==> seq >= 2,
            seq >= 1 ==> start is Some,
            readings.len() == seq,
            forall|i: int| 1 <= i < readings.len() - 1 ==> #[trigger] readings[i] < nanos_of(duration),
            !spent && seq >= 2 ==> readings.last() < nanos_of(duration),
            spent ==> readings.last() >= nanos_of(duration) || seq == u128::MAX,
            callback == f,
            forall|m: &mut Measurer| m@.is_fresh() ==> call_requires(f, (m,)),
            measurer@ == MeasurerView::fresh(seq as nat),
            trace.len() == seq,
            all_contribute(trace),
            total@ == total_of(trace),
            forall|j: int|
                0 <= j < trace.len() ==> (#[trigger] trace[j]).before == MeasurerView::fresh(
                    j as nat,
                ) && exists|m: &mut Measurer, o: O|
                    m@ == trace[j].before && final(m)@ == trace[j].after && call_ensures(
                        f,
                        (m,),
                        o,
                    ),
        decreases
            if spent {
                0
            } else {
                u128::MAX - seq
            },
    {
        let (rep, Ghost(after)) = repeat_once(&mut callback, &mut measurer, seq + 1);
        let ghost before = trace;
        proof {
            trace = before.push(Repetition { before: MeasurerView::fresh(seq as nat), after });
            assert(trace.drop_last() == before);
            assert forall|j: int| 0 <= j < trace.len() implies (#[trigger] trace[j]).before
                == MeasurerView::fresh(j as nat) && exists|m: &mut Measurer, o: O|
                m@ == trace[j].before && final(m)@ == trace[j].after && call_ensures(f, (m,), o) by {
                if j < before.len() {
                    assert(trace[j] == before[j]);
                }
            }
        }
        match rep {
            Ok(c) => {
                proof {
                    lemma_capped_absorbs(sum_of(before), c@);
                }
                total = total.merge(&c);
            },
            Err(e) => {
                proof {
                    let unread = readings.push(0);
                    assert(unread.len() == trace.len());
                    assert(ends_on_budget(unread, nanos_of(duration), false));
                    assert(settles(trace, Err(e)));
                }
                return Err(e);
            },
        }
        seq = seq + 1;
        if seq == 1 {
            if start.is_none() {
                start = Some(Instant::now());
            }
            proof {
                readings = readings.push(0);
            }
        } else {
            let passed: Duration = start.unwrap().elapsed();
            spent = reaches(&passed, &duration) || seq == u128::MAX;
            proof {
                readings = readings.push(nanos_of(passed));
            }
        }
    }
    proof {
        assert(readings.len() == trace.len());
        assert(ends_on_budget(readings, nanos_of(duration), true));
        assert(settles(trace, Ok(total)));
    }
    Ok(total)
}

/// Run a function with a specific duration and measure its execution time.
///
/// The callback is called once, and then again and again until `duration` has passed since
/// the end of that first call; the clock is read after each call but the first, so the
/// callback is called at least twice, however short the duration is. In repetition `i` the
/// callback gets a fresh measurer whose sequence number is `i`. The result is the total of
/// what the repetitions timed; the first repetition that neither times anything nor is
/// passed ends the run with the error. (The run also ends when the sequence numbers are
/// used up.)
pub fn bench_function_with_duration<F, O>(duration: Duration, f: F) -> (r: Result<
    MeasureResult,
    BenchmarkError,
>) where F: FnMut(&mut Measurer) -> O + 'static
    requires
        forall|m: &mut Measurer| m@.is_fresh() ==> call_requires(f, (m,)),
    ensures
        exists|trace: Seq<Repetition>|
            {
                &&& forall|i: int|
                    0 <= i < trace.len() ==> (#[trigger] trace[i]).before == MeasurerView::fresh(
                        i as nat,
                    ) && exists|m: &mut Measurer, o: O|
                        m@ == trace[i].before && final(m)@ == trace[i].after && call_ensures(
                            f,
                            (m,),
                            o,
                        )
                &&& settles(trace, r)
                &&& r is Ok ==> trace.len() >= 2
                &&& exists|readings: Seq<nat>|
                    #[trigger] readings.len() == trace.len() && ends_on_budget(
                        readings,
                        nanos_of(duration),
                        r is Ok,
                    )
            },
{
    repeat_for(None, duration, f)
}

/// Run a function for 5 seconds and measure its execution time.
pub fn bench_function<F, O>(f: F) -> (r: Result<MeasureResult, BenchmarkError>) where
    F: FnMut(&mut Measurer) -> O + 'static,

    requires
        forall|m: &mut Measurer| m@.is_fresh() ==> call_requires(f, (m,)),
    ensures
        exists|trace: Seq<Repetition>|
            {
                &&& forall|i: int|
                    0 <= i < trace.len() ==> (#[trigger] trace[i]).before == MeasurerView::fresh(
                        i as nat,
                    ) && exists|m: &mut Measurer, o: O|
                        m@ == trace[i].before && final(m)@ == trace[i].after && call_ensures(
                            f,
                            (m,),
                            o,
                        )
                &&& settles(trace, r)
                &&& r is Ok ==> trace.len() >= 2
                &&& exists|readings: Seq<nat>|
                    #[trigger] readings.len() == trace.len() && ends_on_budget(
                        readings,
                        (DEFAULT_MEASURE_DURATION * 1_000_000) as nat,
                        r is Ok,
                    )
            },
{
    bench_function_with_duration(duration_of_nanos(DEFAULT_MEASURE_DURATION as u128 * 1_000_000), f)
}

/// The part of one thread in a run that several threads make side by side: as
/// `bench_function_with_duration`, but the budget is held against a clock that was started
/// at `start`, before the threads were, and is the same for all of them.
pub fn bench_function_since<F, O>(start: Instant, duration: Duration, f: F) -> (r: Result<
    MeasureResult,
    BenchmarkError,
>) where F: FnMut(&mut Measurer) -> O
    requires
        forall|m: &mut Measurer| m@.is_fresh() ==> call_requires(f, (m,)),
    ensures
        exists|trace: Seq<Repetition>|
            {
                &&& forall|i: int|
                    0 <= i < trace.len() ==> (#[trigger] trace[i]).before == MeasurerView::fresh(
                        i as nat,
                    ) && exists|m: &mut Measurer, o: O|
                        m@ == trace[i].before && final(m)@ == trace[i].after && call_ensures(
                            f,
                            (m,),
                            o,
                        )
                &&& settles(trace, r)
                &&& r is Ok ==> trace.len() >= 2
                &&& exists|readings: Seq<nat>|
                    #[trigger] readings.len() == trace.len() && ends_on_budget(
                        readings,
                        nanos_of(duration),
                        r is Ok,
                    )
            },
{
    repeat_for(Some(start), duration, f)
}

} // verus!
