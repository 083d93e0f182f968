//! The measurer: what a callback uses to time its spans during one repetition.

use vstd::prelude::*;
use vstd::std_specs::iter::IteratorSpec;
use std::time::{Duration, Instant};
use crate::measure_result::MeasureResult;
use crate::tally::Tally;
use crate::time::nanos_of;
use crate::BenchmarkError;

verus! {

/// What a measurer holds, as numbers.
pub struct MeasurerView {
    /// The number of the repetition the measurer is used in, counted from zero.
    pub seq: nat,
    /// The spans timed in this repetition, if there were any.
    pub recorded: Option<Tally>,
    /// Whether this repetition was passed.
    pub skipped: bool,
}

impl MeasurerView {
    /// The measurer as a callback finds it at the start of repetition `seq`.
    pub open spec fn fresh(seq: nat) -> MeasurerView {
        MeasurerView { seq, recorded: None, skipped: false }
    }

    /// Whether nothing has been timed or passed yet.
    pub open spec fn is_fresh(self) -> bool {
        self.recorded is None && !self.skipped
    }

    /// The measurer after one more span of the given length.
    pub open spec fn record(self, nanos: nat) -> MeasurerView {
        MeasurerView {
            recorded: Some(
                match self.recorded {
                    Some(t) => t.merge(Tally::single(nanos)),
                    None => Tally::single(nanos),
                },
            ),
            ..self
        }
    }

    /// The measurer after one span for each length in `spans`, in order.
    pub open spec fn record_all(self, spans: Seq<nat>) -> MeasurerView
        decreases spans.len(),
    {
        if spans.len() == 0 {
            self
        } else {
            self.record_all(spans.drop_last()).record(spans.last())
        }
    }

    /// The measurer after the repetition was passed.
    pub open spec fn pass(self) -> MeasurerView {
        MeasurerView { skipped: true, ..self }
    }

    /// What the repetition adds to the total of a run: nothing if it was passed, else the
    /// spans it timed. `None` if it was not passed and timed nothing: then the run fails.
    pub open spec fn contribution(self) -> Option<Tally> {
        if self.skipped {
            Some(Tally::empty())
        } else {
            self.recorded
        }
    }
}

/// What the body of a measured loop tells the loop after each round.
#[derive(Debug)]
pub enum MeasureLoopResult<B> {
    /// Go on with the next round.
    Continue,
    /// Stop. The value is dropped.
    Break(B),
}

/// To measure the execution time.
#[derive(Debug)]
pub struct Measurer {
    pub(crate) seq: u128,
    pub(crate) result: Option<MeasureResult>,
    pub(crate) pass: bool,
}

impl View for Measurer {
    type V = MeasurerView;

    closed spec fn view(&self) -> MeasurerView {
        MeasurerView {
            seq: self.seq as nat,
            recorded: match self.result {
                Some(r) => Some(r@),
                None => None,
            },
            skipped: self.pass,
        }
    }
}

impl Default for Measurer {
    fn default() -> (m: Measurer)
        ensures
            m@ == MeasurerView::fresh(0),
    {
        Measurer { seq: 0, result: None, pass: false }
    }
}

impl Measurer {
    /// Get the sequence of the current measurement.
    pub fn get_seq(&self) -> (seq: u128)
        ensures
            seq == self@.seq,
    {
        self.seq
    }

    /// Get the result.
    pub fn get_result(&self) -> (r: Option<&MeasureResult>)
        ensures
            match r {
                Some(result) => self@.recorded == Some(result@),
                None => self@.recorded is None,
            },
    {
        self.result.as_ref()
    }

    /// Check this measurer whether it is measured.
    pub fn is_measured(&self) -> (b: bool)
        ensures
            b == self@.recorded is Some,
    {
        self.result.is_some()
    }

    /// Check this measurer whether it is passed.
    pub fn is_passed(&self) -> (b: bool)
        ensures
            b == self@.skipped,
    {
        self.pass
    }

    /// Adds a span that took `elapsed` to what this repetition has timed so far.
    pub fn update(&mut self, elapsed: Duration)
        ensures
            final(self)@ == old(self)@.record(nanos_of(elapsed)),
    {
        let span: MeasureResult = MeasureResult::new(elapsed);
        let recorded: MeasureResult = match self.result.take() {
            Some(result) => result.merge(&span),
            None => span,
        };
        self.result = Some(recorded);
    }

    /// Measure a function by executing it once.
    pub fn measure<M, K>(&mut self, f: M)
        where M: FnOnce() -> K
        requires
            call_requires(f, ()),
        ensures
            exists|k: K| call_ensures(f, (), k),
            exists|elapsed: Duration| final(self)@ == old(self)@.record(nanos_of(elapsed)),
    {
        let start: Instant = Instant::now();
        let k: K = std::hint::black_box(f());
        let elapsed: Duration = start.elapsed();
        self.update(elapsed);
    }

    /// Measure the rounds of a loop, each round as a span of its own.
    ///
    /// `body` is called with the number of the round, counted from zero, until it returns
    /// `Break`, whose value is dropped. (The loop also ends after the round whose number is
    /// the largest `usize`.)
    pub fn measure_loop<M, B>(&mut self, body: M) where M: FnMut(usize) -> MeasureLoopResult<B>
        requires
            forall|i: usize| call_requires(body, (i,)),
        ensures
            exists|spans: Seq<nat>|
                {
                    &&& #[trigger] old(self)@.record_all(spans) == final(self)@
                    &&& 1 <= spans.len() <= usize::MAX + 1
                    &&& forall|i: usize|
                        i + 1 < spans.len() ==> #[trigger] call_ensures(
                            body,
                            (i,),
                            MeasureLoopResult::Continue,
                        )
                    &&& {
                        ||| exists|b: B|
                            call_ensures(
                                body,
                                ((spans.len() - 1) as usize,),
                                MeasureLoopResult::Break(b),
                            )
                        ||| spans.len() == usize::MAX + 1 && call_ensures(
                            body,
                            (usize::MAX,),
                            MeasureLoopResult::Continue,
                        )
                    }
                },
    {
        let mut body: M = body;
        let ghost body0: M = body;
        let ghost mut spans: Seq<nat> = Seq::empty();
        let mut index: usize = 0;
        let mut done: bool = false;
        while !done
            invariant
                body == body0,
                forall|i: usize| call_requires(body0, (i,)),
                self@ == old(self)@.record_all(spans),
                !done ==> spans.len() == index,
                done ==> spans.len() == index + 1,
                forall|i: usize|
                    i + 1 < spans.len() ==> #[trigger] call_ensures(
                        body0,
                        (i,),
                        MeasureLoopResult::Continue,
                    ),
                !done && index > 0 ==> call_ensures(
                    body0,
                    ((index - 1) as usize,),
                    MeasureLoopResult::Continue,
                ),
                done ==> {
                    ||| exists|b: B| call_ensures(body0, (index,), MeasureLoopResult::Break(b))
                    ||| index == usize::MAX && call_ensures(
                        body0,
                        (index,),
                        MeasureLoopResult::Continue,
                    )
                },
            decreases
                if done {
                    0
                } else {
                    usize::MAX - index + 1
                },
        {
            let start: Instant = Instant::now();
            let signal: MeasureLoopResult<B> = std::hint::black_box(body(index));
            let elapsed: Duration = start.elapsed();
            self.update(elapsed);
            proof {
                let ghost before = spans;
                spans = before.push(nanos_of(elapsed));
                assert(spans.drop_last() == before);
            }
            match signal {
                MeasureLoopResult::Continue => {
                    if index == usize::MAX {
                        done = true;
                    } else {
                        index = index + 1;
                    }
                },
                MeasureLoopResult::Break(payload) => {
                    assert(call_ensures(body0, (index,), MeasureLoopResult::Break(payload)));
                    done = true;
                },
            }
        }
    }

    /// Measure the rounds of a loop that runs as long as a condition holds, each round as a
    /// span of its own; the condition is not timed.
    ///
    /// Before each round `predicate` is called with the number of the round, counted from
    /// zero; if it returns `false`, the loop ends. Else `body` is called with that number,
    /// and the loop ends if it returns `Break`, whose value is dropped. (The loop also ends
    /// after the round whose number is the largest `usize`.)
    pub fn measure_while_loop<P, M, B>(&mut self, predicate: P, body: M) where
        P: FnMut(usize) -> bool,
        M: FnMut(usize) -> MeasureLoopResult<B>,

        requires
            forall|i: usize| call_requires(predicate, (i,)),
            forall|i: usize| call_requires(body, (i,)),
        ensures
            exists|spans: Seq<nat>|
                {
                    &&& #[trigger] old(self)@.record_all(spans) == final(self)@
                    &&& spans.len() <= usize::MAX + 1
                    &&& forall|i: usize|
                        i < spans.len() ==> #[trigger] call_ensures(predicate, (i,), true)
                    &&& forall|i: usize|
                        i + 1 < spans.len() ==> #[trigger] call_ensures(
                            body,
                            (i,),
                            MeasureLoopResult::Continue,
                        )
                    &&& {
                        ||| spans.len() <= usize::MAX && call_ensures(
                            predicate,
                            (spans.len() as usize,),
                            false,
                        )
                        ||| spans.len() >= 1 && exists|b: B|
                            call_ensures(
                                body,
                                ((spans.len() - 1) as usize,),
                                MeasureLoopResult::Break(b),
                            )
                        ||| spans.len() == usize::MAX + 1 && call_ensures(
                            body,
                            (usize::MAX,),
                            MeasureLoopResult::Continue,
                        )
                    }
                },
    {
        let mut predicate: P = predicate;
        let mut body: M = body;
        let ghost predicate0: P = predicate;
        let ghost body0: M = body;
        let ghost mut spans: Seq<nat> = Seq::empty();
        let mut index: usize = 0;
        let mut done: bool = false;
        while !done
            invariant
                predicate == predicate0,
                body == body0,
                forall|i: usize| call_requires(predicate0, (i,)),
                forall|i: usize| call_requires(body0, (i,)),
                self@ == old(self)@.record_all(spans),
                index <= spans.len() <= index + 1,
                !done ==> spans.len() == index,
                forall|i: usize|
                    i < spans.len() ==> #[trigger] call_ensures(predicate0, (i,), true),
                forall|i: usize|
                    i + 1 < spans.len() ==> #[trigger] call_ensures(
                        body0,
                        (i,),
                        MeasureLoopResult::Continue,
                    ),
                !done && index > 0 ==> call_ensures(
                    body0,
                    ((index - 1) as usize,),
                    MeasureLoopResult::Continue,
                ),
                done ==> {
                    ||| spans.len() == index && call_ensures(predicate0, (index,), false)
                    ||| spans.len() == index + 1 && exists|b: B|
                        call_ensures(body0, (index,), MeasureLoopResult::Break(b))
                    ||| spans.len() == index + 1 && index == usize::MAX && call_ensures(
                        body0,
                        (index,),
                        MeasureLoopResult::Continue,
                    )
                },
            decreases
                if done {
                    0
                } else {
                    usize::MAX - index + 1
                },
        {
            if !predicate(index) {
                done = true;
            } else {
                let start: Instant = Instant::now();
                let signal: MeasureLoopResult<B> = std::hint::black_box(body(index));
                let elapsed: Duration = start.elapsed();
                self.update(elapsed);
                proof {
                    let ghost before = spans;
                    spans = before.push(nanos_of(elapsed));
                    assert(spans.drop_last() == before);
                }
                match signal {
                    MeasureLoopResult::Continue => {
                        if index == usize::MAX {
                            done = true;
                        } else {
                            index = index + 1;
                        }
                    },
                    MeasureLoopResult::Break(payload) => {
                        assert(call_ensures(body0, (index,), MeasureLoopResult::Break(payload)));
                        done = true;
                    },
                }
            }
        }
    }

    /// Measure the rounds of a loop over the items of a sequence, each round as a span of
    /// its own; fetching the items is not timed.
    ///
    /// `body` is called with each item and its position in the sequence, counted from zero,
    /// until the sequence has no more items or `body` returns `Break`, whose value is
    /// dropped. (The loop also ends after the round whose position is the largest `usize`.)
    pub fn measure_for_loop<I, M, B>(&mut self, sequence: I, body: M) where
        I: Iterator,
        M: FnMut(I::Item, usize) -> MeasureLoopResult<B>,

        requires
            forall|item: I::Item, i: usize| call_requires(body, (item, i)),
        ensures
            exists|spans: Seq<nat>, items: Seq<I::Item>|
                {
                    &&& #[trigger] old(self)@.record_all(spans) == final(self)@
                    &&& #[trigger] items.len() == spans.len()
                    &&& spans.len() <= usize::MAX + 1
                    &&& forall|i: int|
                        0 <= i < items.len() - 1 ==> call_ensures(
                            body,
                            (#[trigger] items[i], i as usize),
                            MeasureLoopResult::Continue,
                        )
                    &&& sequence.obeys_prophetic_iter_laws() ==> {
                        &&& items.len() <= sequence.remaining().len()
                        &&& items == sequence.remaining().take(items.len() as int)
                        &&& {
                            ||| items.len() == sequence.remaining().len()
                            ||| items.len() >= 1 && exists|b: B|
                                call_ensures(
                                    body,
                                    (items.last(), (items.len() - 1) as usize),
                                    MeasureLoopResult::Break(b),
                                )
                            ||| items.len() == usize::MAX + 1
                        }
                    }
                },
    {
        let mut sequence: I = sequence;
        let mut body: M = body;
        let ghost sequence0: I = sequence;
        let ghost body0: M = body;
        let ghost mut spans: Seq<nat> = Seq::empty();
        let ghost mut items: Seq<I::Item> = Seq::empty();
        let mut index: usize = 0;
        let mut done: bool = false;
        while !done
            invariant
                body == body0,
                forall|item: I::Item, i: usize| call_requires(body0, (item, i)),
                self@ == old(self)@.record_all(spans),
                items.len() == spans.len(),
                index <= spans.len() <= index + 1,
                !done ==> spans.len() == index,
                forall|i: int|
                    0 <= i < items.len() - 1 ==> call_ensures(
                        body0,
                        (#[trigger] items[i], i as usize),
                        MeasureLoopResult::Continue,
                    ),
                !done && index > 0 ==> call_ensures(
                    body0,
                    (items.last(), (index - 1) as usize),
                    MeasureLoopResult::Continue,
                ),
                sequence.obeys_prophetic_iter_laws() == sequence0.obeys_prophetic_iter_laws(),
                sequence0.obeys_prophetic_iter_laws() ==> {
                    &&& items.len() <= sequence0.remaining().len()
                    &&& items == sequence0.remaining().take(items.len() as int)
                    &&& sequence.remaining() == sequence0.remaining().skip(items.len() as int)
                },
                done && sequence0.obeys_prophetic_iter_laws() ==> {
                    ||| items.len() == sequence0.remaining().len()
                    ||| items.len() >= 1 && exists|b: B|
                        call_ensures(
                            body0,
                            (items.last(), (items.len() - 1) as usize),
                            MeasureLoopResult::Break(b),
                        )
                    ||| items.len() == usize::MAX + 1
                },
            decreases
                if done {
                    0
                } else {
                    usize::MAX - index + 1
                },
        {
            match sequence.next() {
                None => {
                    done = true;
                },
                Some(item) => {
                    let ghost taken: I::Item = item;
                    let start: Instant = Instant::now();
                    let signal: MeasureLoopResult<B> = std::hint::black_box(body(item, index));
                    let elapsed: Duration = start.elapsed();
                    self.update(elapsed);
                    proof {
                        let ghost before = spans;
                        spans = before.push(nanos_of(elapsed));
                        assert(spans.drop_last() == before);
                        items = items.push(taken);
                    }
                    match signal {
                        MeasureLoopResult::Continue => {
                            if index == usize::MAX {
                                done = true;
                            } else {
                                index = index + 1;
                            }
                        },
                        MeasureLoopResult::Break(payload) => {
                            assert(call_ensures(
                                body0,
                                (taken, index),
                                MeasureLoopResult::Break(payload),
                            ));
                            done = true;
                        },
                    }
                },
            }
        }
    }

    /// Pass the current measurement.
    pub fn pass(&mut self)
        ensures
            final(self)@ == old(self)@.pass(),
    {
        self.pass = true;
    }

    /// Ends a repetition. Hands out what the repetition adds to the total of a run, or the
    /// error if it was neither passed nor timed anything, and makes the measurer ready for
    /// the repetition with the sequence number `next`.
    pub fn conclude(&mut self, next: u128) -> (r: Result<MeasureResult, BenchmarkError>)
        ensures
            final(self)@ == MeasurerView::fresh(next as nat),
            match r {
                Ok(c) => old(self)@.contribution() == Some(c@),
                Err(_) => old(self)@.contribution() is None,
            },
    {
        let recorded: Option<MeasureResult> = self.result.take();
        let passed: bool = self.pass;
        self.pass = false;
        self.seq = next;
        if passed {
            Ok(MeasureResult::empty())
        } else {
            match recorded {
                Some(result) => Ok(result),
                None => Err(BenchmarkError::MeasurerNotMeasured),
            }
        }
    }
}

} // verus!
