//! What holds of the measurements, whatever the callbacks and the clock do.

use vstd::prelude::*;
use vstd::std_specs::iter::IteratorSpec;
use crate::measure_result::MeasureResult;
use crate::measurer::{MeasureLoopResult, Measurer, MeasurerView};
use crate::run::{all_contribute, ends_on_budget, settles, sum_of, total_of, Repetition};
use crate::wide::{settles_n, WideRepetition};
use crate::tally::Tally;
use crate::threads::{sum_of_parts, threads_total};
use crate::time::MAX_NANOS;
use crate::BenchmarkError;

verus! {

/// The sum of the lengths in `spans`.
pub open spec fn sum_spans(spans: Seq<nat>) -> nat
    decreases spans.len(),
{
    if spans.len() == 0 {
        0
    } else {
        sum_spans(spans.drop_last()) + spans.last()
    }
}

/// As long as the exact sum of a run can be stored, the total of the run is that sum.
pub proof fn law_total_is_exact_while_storable(trace: Seq<Repetition>)
    requires
        sum_of(trace).storable(),
    ensures
        total_of(trace) == sum_of(trace),
{
}

/// Merging two results adds up their counts and their times, as long as the sums can be
/// stored.
pub proof fn law_merge_adds_up(a: MeasureResult, b: MeasureResult)
    requires
        a@.plus(b@).storable(),
    ensures
        a@.merge(b@).count == a@.count + b@.count,
        a@.merge(b@).nanos == a@.nanos + b@.nanos,
{
}

/// Merging does not depend on the order of the two results.
pub proof fn law_merge_commutative(a: MeasureResult, b: MeasureResult)
    ensures
        a@.merge(b@) == b@.merge(a@),
{
}

/// Merging three results gives the same whichever two of them are merged first.
pub proof fn law_merge_associative(a: MeasureResult, b: MeasureResult, c: MeasureResult)
    ensures
        a@.merge(b@).merge(c@) == a@.merge(b@.merge(c@)),
{
}

/// A repetition in which the callback does nothing but pass adds nothing to the total of
/// a run and does not make the run fail.
pub proof fn law_passed_adds_nothing(trace: Seq<Repetition>, rep: Repetition)
    requires
        all_contribute(trace),
        rep.after == rep.before.pass(),
    ensures
        rep.after.contribution() == Some(Tally::empty()),
        all_contribute(trace.push(rep)),
        total_of(trace.push(rep)) == total_of(trace),
        forall|r: Result<MeasureResult, BenchmarkError>|
            settles(trace.push(rep), r) ==> r is Ok && r->Ok_0@ == total_of(trace),
{
    let longer = trace.push(rep);
    assert(longer.drop_last() == trace);
    assert(sum_of(longer) == sum_of(trace));
}

/// Where every repetition is passed, the exact sum of a run is empty.
pub proof fn lemma_sum_of_passed(trace: Seq<Repetition>)
    requires
        forall|i: int|
            0 <= i < trace.len() ==> (#[trigger] trace[i]).after.contribution() == Some(
                Tally::empty(),
            ),
    ensures
        sum_of(trace) == Tally::empty(),
    decreases trace.len(),
{
    if trace.len() > 0 {
        lemma_sum_of_passed(trace.drop_last());
    }
}

/// A run whose callback does nothing but pass succeeds, and its result is empty: no
/// spans, no time.
pub proof fn law_passed_run_is_empty<F, O>(f: F, times: u64, r: Result<MeasureResult, BenchmarkError>) where
    F: FnMut(&mut Measurer) -> O,

    requires
        times >= 1,
        exists|trace: Seq<Repetition>|
            {
                &&& forall|i: int|
                    0 <= i < trace.len() ==> (#[trigger] trace[i]).before == MeasurerView::fresh(
                        i as nat,
                    ) && exists|m: &mut Measurer, o: O|
                        m@ == trace[i].before && final(m)@ == trace[i].after && call_ensures(
                            f,
                            (m,),
                            o,
                        )
                &&& settles(trace, r)
                &&& trace.len() <= times
                &&& r is Ok ==> trace.len() == times
            },
        forall|m: &mut Measurer, o: O|
            m@.is_fresh() && #[trigger] call_ensures(f, (m,), o) ==> final(m)@ == m@.pass(),
    ensures
        r is Ok,
        r->Ok_0@ == Tally::empty(),
{
    let trace = choose|trace: Seq<Repetition>|
        {
            &&& forall|i: int|
                0 <= i < trace.len() ==> (#[trigger] trace[i]).before == MeasurerView::fresh(
                    i as nat,
                ) && exists|m: &mut Measurer, o: O|
                    m@ == trace[i].before && final(m)@ == trace[i].after && call_ensures(
                        f,
                        (m,),
                        o,
                    )
            &&& settles(trace, r)
            &&& trace.len() <= times
            &&& r is Ok ==> trace.len() == times
        };
    assert forall|i: int| 0 <= i < trace.len() implies (#[trigger] trace[i]).after.contribution()
        == Some(Tally::empty()) by {
        assert(trace[i].before == MeasurerView::fresh(i as nat));
    }
    lemma_sum_of_passed(trace);
    if r is Err {
        assert(trace.last() == trace[trace.len() - 1]);
    }
}

/// Where every repetition times exactly one span, the exact sum of a run is the number of
/// its repetitions and the sum of the lengths of their spans.
pub proof fn lemma_sum_of_single_spans(trace: Seq<Repetition>, spans: Seq<nat>)
    requires
        spans.len() == trace.len(),
        forall|i: int|
            0 <= i < trace.len() ==> (#[trigger] trace[i]).after.contribution() == Some(
                Tally::single(spans[i]),
            ),
    ensures
        sum_of(trace) == (Tally { count: trace.len(), nanos: sum_spans(spans) }),
    decreases trace.len(),
{
    if trace.len() > 0 {
        lemma_sum_of_single_spans(trace.drop_last(), spans.drop_last());
    }
}

/// Where every repetition times at least one span, a run has timed at least as many spans
/// as it has repetitions.
pub proof fn lemma_sum_counts_repetitions(trace: Seq<Repetition>)
    requires
        forall|i: int|
            0 <= i < trace.len() ==> (#[trigger] trace[i]).after.contribution() is Some
                && trace[i].after.contribution()->0.count >= 1,
    ensures
        sum_of(trace).count >= trace.len(),
    decreases trace.len(),
{
    if trace.len() > 0 {
        lemma_sum_counts_repetitions(trace.drop_last());
    }
}

/// A run of `times` repetitions whose callback times exactly one span in each of them
/// succeeds. Its result counts `times` spans, and its time is the sum of the lengths of
/// those spans, unless that sum is longer than the longest time that can be held.
pub proof fn law_one_span_each<F, O>(f: F, times: u64, r: Result<MeasureResult, BenchmarkError>) where
    F: FnMut(&mut Measurer) -> O,

    requires
        times >= 1,
        exists|trace: Seq<Repetition>|
            {
                &&& forall|i: int|
                    0 <= i < trace.len() ==> (#[trigger] trace[i]).before == MeasurerView::fresh(
                        i as nat,
                    ) && exists|m: &mut Measurer, o: O|
                        m@ == trace[i].before && final(m)@ == trace[i].after && call_ensures(
                            f,
                            (m,),
                            o,
                        )
                &&& settles(trace, r)
                &&& trace.len() <= times
                &&& r is Ok ==> trace.len() == times
            },
        forall|m: &mut Measurer, o: O|
            m@.is_fresh() && call_ensures(f, (m,), o) ==> exists|span: nat|
                final(m)@ == #[trigger] m@.record(span),
    ensures
        r is Ok,
        r->Ok_0@.count == times,
        exists|spans: Seq<nat>|
            {
                &&& spans.len() == times
                &&& forall|i: int|
                    0 <= i < times ==> exists|m: &mut Measurer, o: O|
                        m@ == MeasurerView::fresh(i as nat) && final(m)@ == m@.record(
                            #[trigger] spans[i],
                        ) && call_ensures(f, (m,), o)
                &&& r->Ok_0@.nanos == if sum_spans(spans) <= MAX_NANOS {
                    sum_spans(spans)
                } else {
                    MAX_NANOS as nat
                }
            },
{
    let trace = choose|trace: Seq<Repetition>|
        {
            &&& forall|i: int|
                0 <= i < trace.len() ==> (#[trigger] trace[i]).before == MeasurerView::fresh(
                    i as nat,
                ) && exists|m: &mut Measurer, o: O|
                    m@ == trace[i].before && final(m)@ == trace[i].after && call_ensures(
                        f,
                        (m,),
                        o,
                    )
            &&& settles(trace, r)
            &&& trace.len() <= times
            &&& r is Ok ==> trace.len() == times
        };
    let spans = Seq::new(
        trace.len(),
        |i: int|
            choose|span: nat| trace[i].after == #[trigger] trace[i].before.record(span),
    );
    assert forall|i: int| 0 <= i < trace.len() implies (#[trigger] trace[i]).after
        == MeasurerView::fresh(i as nat).record(spans[i]) && exists|m: &mut Measurer, o: O|
        m@ == MeasurerView::fresh(i as nat) && final(m)@ == m@.record(spans[i]) && call_ensures(
            f,
            (m,),
            o,
        ) by {
        assert(trace[i].before == MeasurerView::fresh(i as nat));
        let (m, o) = choose|m: &mut Measurer, o: O|
            m@ == trace[i].before && final(m)@ == trace[i].after && call_ensures(f, (m,), o);
        assert(m@.is_fresh());
        let span = choose|span: nat| final(m)@ == #[trigger] m@.record(span);
        assert(trace[i].after == trace[i].before.record(span));
    }
    assert forall|i: int| 0 <= i < trace.len() implies (#[trigger] trace[i]).after.contribution()
        == Some(Tally::single(spans[i])) by {
        assert(trace[i].after == MeasurerView::fresh(i as nat).record(spans[i]));
    }
    lemma_sum_of_single_spans(trace, spans);
    if r is Err {
        assert(trace.last() == trace[trace.len() - 1]);
    }
}

/// A run whose callback neither times anything nor passes fails with its first repetition:
/// no later repetition is made, and no total comes back.
pub proof fn law_silent_callback_fails_at_once<F, O>(
    f: F,
    times: u64,
    r: Result<MeasureResult, BenchmarkError>,
) where F: FnMut(&mut Measurer) -> O
    requires
        times >= 1,
        exists|trace: Seq<Repetition>|
            {
                &&& forall|i: int|
                    0 <= i < trace.len() ==> (#[trigger] trace[i]).before == MeasurerView::fresh(
                        i as nat,
                    ) && exists|m: &mut Measurer, o: O|
                        m@ == trace[i].before && final(m)@ == trace[i].after && call_ensures(
                            f,
                            (m,),
                            o,
                        )
                &&& settles(trace, r)
                &&& trace.len() <= times
                &&& r is Ok ==> trace.len() == times
            },
        forall|m: &mut Measurer, o: O|
            m@.is_fresh() && #[trigger] call_ensures(f, (m,), o) ==> final(m)@.is_fresh(),
    ensures
        r is Err,
        exists|trace: Seq<Repetition>|
            {
                &&& forall|i: int|
                    0 <= i < trace.len() ==> (#[trigger] trace[i]).before == MeasurerView::fresh(
                        i as nat,
                    ) && exists|m: &mut Measurer, o: O|
                        m@ == trace[i].before && final(m)@ == trace[i].after && call_ensures(
                            f,
                            (m,),
                            o,
                        )
                &&& settles(trace, r)
                &&& trace.len() == 1
            },
{
    let trace = choose|trace: Seq<Repetition>|
        {
            &&& forall|i: int|
                0 <= i < trace.len() ==> (#[trigger] trace[i]).before == MeasurerView::fresh(
                    i as nat,
                ) && exists|m: &mut Measurer, o: O|
                    m@ == trace[i].before && final(m)@ == trace[i].after && call_ensures(
                        f,
                        (m,),
                        o,
                    )
            &&& settles(trace, r)
            &&& trace.len() <= times
            &&& r is Ok ==> trace.len() == times
        };
    assert(trace.len() >= 1);
    assert(trace[0].before == MeasurerView::fresh(0));
    assert(trace[0].after.contribution() is None);
    if trace.len() > 1 {
        assert(trace.drop_last()[0] == trace[0]);
    }
}

/// A run that is bounded by time, with a callback that times at least one span whenever
/// it is called, succeeds and has timed at least one span, however short the time is: even
/// if it is zero.
pub proof fn law_timed_run_is_never_empty<F, O>(f: F, r: Result<MeasureResult, BenchmarkError>) where
    F: FnMut(&mut Measurer) -> O,

    requires
        exists|trace: Seq<Repetition>|
            {
                &&& forall|i: int|
                    0 <= i < trace.len() ==> (#[trigger] trace[i]).before == MeasurerView::fresh(
                        i as nat,
                    ) && exists|m: &mut Measurer, o: O|
                        m@ == trace[i].before && final(m)@ == trace[i].after && call_ensures(
                            f,
                            (m,),
                            o,
                        )
                &&& settles(trace, r)
                &&& r is Ok ==> trace.len() >= 2
            },
        forall|m: &mut Measurer, o: O|
            m@.is_fresh() && #[trigger] call_ensures(f, (m,), o) ==> final(m)@.contribution()
                is Some && final(m)@.contribution()->0.count >= 1,
    ensures
        r is Ok,
        r->Ok_0@.count >= 1,
{
    let trace = choose|trace: Seq<Repetition>|
        {
            &&& forall|i: int|
                0 <= i < trace.len() ==> (#[trigger] trace[i]).before == MeasurerView::fresh(
                    i as nat,
                ) && exists|m: &mut Measurer, o: O|
                    m@ == trace[i].before && final(m)@ == trace[i].after && call_ensures(
                        f,
                        (m,),
                        o,
                    )
            &&& settles(trace, r)
            &&& r is Ok ==> trace.len() >= 2
        };
    assert forall|i: int| 0 <= i < trace.len() implies (#[trigger] trace[i]).after.contribution()
        is Some && trace[i].after.contribution()->0.count >= 1 by {
        assert(trace[i].before == MeasurerView::fresh(i as nat));
    }
    lemma_sum_counts_repetitions(trace);
    if r is Err {
        assert(trace.last() == trace[trace.len() - 1]);
    }
}

/// A run that is bounded by a time of zero makes two repetitions if it does not fail, and
/// never more than two.
pub proof fn law_zero_budget_repeats_twice(readings: Seq<nat>, complete: bool)
    requires
        ends_on_budget(readings, 0, complete),
    ensures
        readings.len() <= 2,
        complete ==> readings.len() == 2,
{
    if readings.len() > 2 {
        assert(readings[1] < 0);
    }
}

/// A fresh measurer that has timed the spans in `spans` has counted them all.
pub proof fn lemma_record_all_counts(before: MeasurerView, spans: Seq<nat>)
    requires
        before.is_fresh(),
        1 <= spans.len() <= u128::MAX,
    ensures
        before.record_all(spans).recorded is Some,
        before.record_all(spans).recorded->0.count == spans.len(),
        before.record_all(spans).seq == before.seq,
        before.record_all(spans).skipped == before.skipped,
    decreases spans.len(),
{
    if spans.len() > 1 {
        lemma_record_all_counts(before, spans.drop_last());
    } else {
        assert(spans.drop_last().len() == 0);
        assert(before.record_all(spans.drop_last()) == before);
    }
}

/// A measured loop over a sequence of `length` items whose body never breaks times
/// exactly `length` spans: a measurer that was fresh has counted `length` spans after it,
/// or is still fresh if the sequence was empty.
pub proof fn law_for_loop_times_every_item<I, M, B>(
    before: MeasurerView,
    after: MeasurerView,
    sequence: I,
    body: M,
    length: nat,
) where I: Iterator, M: FnMut(I::Item, usize) -> MeasureLoopResult<B>
    requires
        before.is_fresh(),
        sequence.obeys_prophetic_iter_laws(),
        sequence.remaining().len() == length,
        length <= usize::MAX,
        forall|item: I::Item, i: usize, b: B|
            !#[trigger] call_ensures(body, (item, i), MeasureLoopResult::Break(b)),
        exists|spans: Seq<nat>, items: Seq<I::Item>|
            {
                &&& #[trigger] before.record_all(spans) == after
                &&& #[trigger] items.len() == spans.len()
                &&& spans.len() <= usize::MAX + 1
                &&& forall|i: int|
                    0 <= i < items.len() - 1 ==> call_ensures(
                        body,
                        (#[trigger] items[i], i as usize),
                        MeasureLoopResult::Continue,
                    )
                &&& sequence.obeys_prophetic_iter_laws() ==> {
                    &&& items.len() <= sequence.remaining().len()
                    &&& items == sequence.remaining().take(items.len() as int)
                    &&& {
                        ||| items.len() == sequence.remaining().len()
                        ||| items.len() >= 1 && exists|b: B|
                            call_ensures(
                                body,
                                (items.last(), (items.len() - 1) as usize),
                                MeasureLoopResult::Break(b),
                            )
                        ||| items.len() == usize::MAX + 1
                    }
                }
            },
    ensures
        length == 0 ==> after == before,
        length >= 1 ==> after.recorded is Some && after.recorded->0.count == length,
{
    let (spans, items) = choose|spans: Seq<nat>, items: Seq<I::Item>|
        {
            &&& #[trigger] before.record_all(spans) == after
            &&& #[trigger] items.len() == spans.len()
            &&& spans.len() <= usize::MAX + 1
            &&& forall|i: int|
                0 <= i < items.len() - 1 ==> call_ensures(
                    body,
                    (#[trigger] items[i], i as usize),
                    MeasureLoopResult::Continue,
                )
            &&& sequence.obeys_prophetic_iter_laws() ==> {
                &&& items.len() <= sequence.remaining().len()
                &&& items == sequence.remaining().take(items.len() as int)
                &&& {
                    ||| items.len() == sequence.remaining().len()
                    ||| items.len() >= 1 && exists|b: B|
                        call_ensures(
                            body,
                            (items.last(), (items.len() - 1) as usize),
                            MeasureLoopResult::Break(b),
                        )
                    ||| items.len() == usize::MAX + 1
                }
            }
        };
    assert(spans.len() == length);
    if length >= 1 {
        lemma_record_all_counts(before, spans);
    }
}

/// A run with several measurers fails if a repetition leaves any one of them without a
/// span and not passed, whatever the other measurers have timed.
pub proof fn law_unused_measurer_fails_run(
    n: nat,
    trace: Seq<WideRepetition>,
    r: Result<Vec<MeasureResult>, BenchmarkError>,
    i: int,
    j: int,
)
    requires
        settles_n(n, trace, r),
        0 <= i < trace.len(),
        0 <= j < n,
        trace[i].after.len() == n ==> trace[i].after[j].contribution() is None,
    ensures
        r is Err,
        i == trace.len() - 1,
{
    if r is Ok {
        assert(trace[i].after[j].contribution() is Some);
    } else if i < trace.len() - 1 {
        assert(trace.drop_last()[i] == trace[i]);
        assert(trace[i].after[j].contribution() is Some);
    }
}

/// The exact sum of `parts` where all of them are `part`.
pub proof fn lemma_sum_of_equal_parts(parts: Seq<Tally>, part: Tally)
    requires
        forall|i: int| 0 <= i < parts.len() ==> #[trigger] parts[i] == part,
    ensures
        sum_of_parts(parts) == (Tally {
            count: parts.len() * part.count,
            nanos: parts.len() * part.nanos,
        }),
    decreases parts.len(),
{
    if parts.len() > 0 {
        lemma_sum_of_equal_parts(parts.drop_last(), part);
        assert(parts.len() * part.count == (parts.len() - 1) * part.count + part.count)
            by (nonlinear_arith);
        assert(parts.len() * part.nanos == (parts.len() - 1) * part.nanos + part.nanos)
            by (nonlinear_arith);
    } else {
        assert(0 * part.count == 0 && 0 * part.nanos == 0) by (nonlinear_arith);
    }
}

/// Threads that have all measured the same hand in a total with the spans of all of them
/// and the time of one: the time is divided by the number of threads once, not once for
/// each thread, and not left undivided.
pub proof fn law_equal_threads_keep_their_time(parts: Seq<Tally>, part: Tally)
    requires
        parts.len() > 0,
        forall|i: int| 0 <= i < parts.len() ==> #[trigger] parts[i] == part,
        (Tally { count: parts.len() * part.count, nanos: parts.len() * part.nanos }).storable(),
    ensures
        threads_total(parts) == (Tally { count: parts.len() * part.count, nanos: part.nanos }),
{
    lemma_sum_of_equal_parts(parts, part);
    let threads = parts.len();
    let nanos = part.nanos;
    assert((threads * nanos) / threads == nanos) by (nonlinear_arith)
        requires
            threads > 0,
    ;
}

} // verus!
