//! Measures how long a piece of work takes.
//!
//! A callback receives a [`Measurer`], times one or more spans of work with it, and the
//! functions of this crate repeat that callback a fixed number of times or until a time
//! budget is used up, adding the spans of all repetitions into one [`MeasureResult`].
//! Nothing is printed or stored: the caller decides what to do with the totals.
//!
//! ```rust,ignore
//! const VEC_LENGTH: usize = 100;
//!
//! let bench_result = benchmarking::measure_function(|measurer| {
//!     let mut vec: Vec<usize> = Vec::with_capacity(VEC_LENGTH);
//!
//!     for i in 0..VEC_LENGTH {
//!         measurer.measure(|| vec.push(i));
//!     }
//!
//!     vec
//! })
//! .unwrap();
//!
//! println!("Pushing a number into a vec takes {:?}!", bench_result.elapsed());
//! ```
//!
//! With `measure_function_n` the callback gets several measurers, one for each part of its
//! work that is to be timed apart from the others:
//!
//! ```rust,ignore
//! let bench_result = benchmarking::measure_function_n(2, |measurers| {
//!     let mut vec: Vec<usize> = Vec::with_capacity(VEC_LENGTH);
//!
//!     for i in 0..VEC_LENGTH {
//!         measurers[1].measure(|| vec.push(i));
//!     }
//!
//!     for i in 0..VEC_LENGTH {
//!         measurers[0].measure(|| vec[i]);
//!     }
//!
//!     vec
//! })
//! .unwrap();
//!
//! println!("Reading a number from a vec takes {:?}!", bench_result[0].elapsed());
//! println!("Pushing a number into a vec takes {:?}!", bench_result[1].elapsed());
//! ```
//!
//! `measure_function` and `measure_function_with_times` repeat the callback a given number
//! of times, `bench_function` and `bench_function_with_duration` repeat it for a given time.
//! A callback that has nothing to time in a repetition calls `Measurer::pass`; one that
//! neither times anything nor passes makes the run fail.
//!
//! What the functions promise is stated over plain numbers: a [`tally::Tally`] for a
//! result, a [`measurer::MeasurerView`] for a measurer, and for a run the sequence of its
//! repetitions, each with the measurer as the callback found it and as it left it. The
//! module [`laws`] holds what follows for every callback and every clock.

use vstd::prelude::*;

pub mod time;
pub mod tally;
pub mod measure_result;
pub mod measurer;
pub mod run;
pub mod wide;
pub mod threads;
pub mod laws;

pub use measure_result::MeasureResult;
pub use measurer::{MeasureLoopResult, Measurer};
pub use threads::{merge_thread_results, merge_thread_results_n};
pub use wide::{
    bench_function_n, bench_function_n_since, bench_function_n_with_duration, measure_function_n,
    measure_function_n_with_times,
};
pub use run::{
    bench_function, bench_function_since, bench_function_with_duration, measure_function,
    measure_function_with_times,
};

verus! {

/// Why a run produced no result.
#[derive(Debug)]
pub enum BenchmarkError {
    /// A repetition ended without timing a span and without being passed.
    MeasurerNotMeasured,
}

} // verus!
