use benchmarking::{
    bench_function_since, merge_thread_results, merge_thread_results_n, BenchmarkError,
    MeasureResult, Measurer,
};
use std::time::{Duration, Instant};

fn result_of(times: u32, total: Duration) -> MeasureResult {
    let mut r = MeasureResult::empty();
    for _ in 0..times {
        r = r.merge(&MeasureResult::new(total / times));
    }
    r
}

#[test]
fn four_threads_are_divided_once() {
    let results = vec![
        Ok(result_of(10, Duration::from_millis(1000))),
        Ok(result_of(10, Duration::from_millis(1000))),
        Ok(result_of(10, Duration::from_millis(1000))),
        Ok(result_of(10, Duration::from_millis(1000))),
    ];
    let total = merge_thread_results(&results).unwrap();
    assert_eq!(total.times(), 40);
    assert_eq!(total.total_elapsed(), Duration::from_millis(1000));
    assert_eq!(total.elapsed(), Duration::from_millis(25));
}

#[test]
fn one_thread_keeps_its_result() {
    let results = vec![Ok(result_of(3, Duration::from_nanos(300)))];
    let total = merge_thread_results(&results).unwrap();
    assert_eq!(total.times(), 3);
    assert_eq!(total.total_elapsed(), Duration::from_nanos(300));
}

#[test]
fn unequal_threads_are_added_before_dividing() {
    let results = vec![
        Ok(result_of(1, Duration::from_nanos(10))),
        Ok(result_of(5, Duration::from_nanos(25))),
        Ok(MeasureResult::empty()),
    ];
    let total = merge_thread_results(&results).unwrap();
    assert_eq!(total.times(), 6);
    assert_eq!(total.total_elapsed(), Duration::from_nanos(11));
}

#[test]
fn a_failed_thread_fails_the_run() {
    let results = vec![
        Ok(result_of(10, Duration::from_millis(1000))),
        Err(BenchmarkError::MeasurerNotMeasured),
        Ok(result_of(10, Duration::from_millis(1000))),
    ];
    assert!(matches!(merge_thread_results(&results), Err(BenchmarkError::MeasurerNotMeasured)));
    let only = vec![Err(BenchmarkError::MeasurerNotMeasured)];
    assert!(matches!(merge_thread_results(&only), Err(BenchmarkError::MeasurerNotMeasured)));
}

#[test]
fn threads_with_several_measurers_are_divided_once() {
    let results = vec![
        Ok(vec![result_of(10, Duration::from_millis(1000)), result_of(2, Duration::from_nanos(8))]),
        Ok(vec![result_of(10, Duration::from_millis(1000)), result_of(4, Duration::from_nanos(8))]),
        Ok(vec![result_of(10, Duration::from_millis(1000)), result_of(6, Duration::from_nanos(6))]),
        Ok(vec![result_of(10, Duration::from_millis(1000)), MeasureResult::empty()]),
    ];
    let totals = merge_thread_results_n(2, &results).unwrap();
    assert_eq!(totals.len(), 2);
    assert_eq!(totals[0].times(), 40);
    assert_eq!(totals[0].total_elapsed(), Duration::from_millis(1000));
    assert_eq!(totals[1].times(), 12);
    assert_eq!(totals[1].total_elapsed(), Duration::from_nanos(5));
}

#[test]
fn a_failed_thread_fails_the_run_with_several_measurers() {
    let results = vec![
        Ok(vec![result_of(1, Duration::from_nanos(1))]),
        Err(BenchmarkError::MeasurerNotMeasured),
    ];
    assert!(matches!(
        merge_thread_results_n(1, &results),
        Err(BenchmarkError::MeasurerNotMeasured)
    ));
}

#[test]
fn a_thread_with_too_few_results_fails_the_run() {
    let results = vec![
        Ok(vec![result_of(1, Duration::from_nanos(1)), result_of(1, Duration::from_nanos(1))]),
        Ok(vec![result_of(1, Duration::from_nanos(1))]),
    ];
    assert!(matches!(
        merge_thread_results_n(2, &results),
        Err(BenchmarkError::MeasurerNotMeasured)
    ));
}

#[test]
fn threads_without_measurers_have_no_totals() {
    let results = vec![Ok(Vec::new()), Ok(Vec::new())];
    let totals = merge_thread_results_n(0, &results).unwrap();
    assert!(totals.is_empty());
}

#[test]
fn runs_against_one_clock_are_put_together() {
    let start = Instant::now();
    let duration = Duration::from_millis(10);
    let mut results = Vec::new();
    let mut spans: u128 = 0;
    for _ in 0..4 {
        let result = bench_function_since(start, duration, |m: &mut Measurer| {
            m.update(Duration::from_nanos(4));
        });
        spans += result.as_ref().unwrap().times();
        results.push(result);
    }
    let total = merge_thread_results(&results).unwrap();
    assert!(start.elapsed() >= duration);
    assert!(spans >= 8);
    assert_eq!(total.times(), spans);
    assert_eq!(total.total_elapsed().as_nanos(), 4 * spans / 4);
}
