use benchmarking::{BenchmarkError, MeasureLoopResult, Measurer};
use std::time::Duration;

#[test]
fn default_measurer_is_fresh() {
    let m = Measurer::default();
    assert_eq!(m.get_seq(), 0);
    assert!(m.get_result().is_none());
    assert!(!m.is_measured());
    assert!(!m.is_passed());
}

#[test]
fn update_starts_a_result() {
    let mut m = Measurer::default();
    m.update(Duration::from_nanos(17));
    assert!(m.is_measured());
    let r = m.get_result().unwrap();
    assert_eq!(r.times(), 1);
    assert_eq!(r.total_elapsed(), Duration::from_nanos(17));
}

#[test]
fn update_adds_to_the_result() {
    let mut m = Measurer::default();
    m.update(Duration::from_nanos(17));
    m.update(Duration::from_nanos(3));
    m.update(Duration::from_secs(1));
    let r = m.get_result().unwrap();
    assert_eq!(r.times(), 3);
    assert_eq!(r.total_elapsed(), Duration::new(1, 20));
    assert_eq!(m.get_seq(), 0);
    assert!(!m.is_passed());
}

#[test]
fn measure_calls_the_work_once() {
    let mut m = Measurer::default();
    let mut calls = 0;
    m.measure(|| {
        calls += 1;
        calls
    });
    assert_eq!(calls, 1);
    assert!(m.is_measured());
    assert_eq!(m.get_result().unwrap().times(), 1);
}

#[test]
fn measure_times_the_work() {
    let mut m = Measurer::default();
    m.measure(|| {
        let start = std::time::Instant::now();
        while start.elapsed() < Duration::from_millis(2) {}
    });
    assert!(m.get_result().unwrap().total_elapsed() >= Duration::from_millis(2));
}

#[test]
fn measuring_again_adds_up() {
    let mut m = Measurer::default();
    for i in 0..5 {
        m.measure(|| i * 2);
    }
    assert_eq!(m.get_result().unwrap().times(), 5);
}

#[test]
fn pass_marks_the_measurer() {
    let mut m = Measurer::default();
    m.pass();
    assert!(m.is_passed());
    assert!(!m.is_measured());
    assert!(m.get_result().is_none());
}

#[test]
fn conclude_hands_out_what_was_timed() {
    let mut m = Measurer::default();
    m.update(Duration::from_nanos(5));
    m.update(Duration::from_nanos(6));
    let r = m.conclude(1).unwrap();
    assert_eq!(r.times(), 2);
    assert_eq!(r.total_elapsed(), Duration::from_nanos(11));
    assert_eq!(m.get_seq(), 1);
    assert!(!m.is_measured());
    assert!(!m.is_passed());
}

#[test]
fn conclude_of_a_passed_measurer_is_empty() {
    let mut m = Measurer::default();
    m.pass();
    let r = m.conclude(8).unwrap();
    assert_eq!(r.times(), 0);
    assert_eq!(r.total_elapsed(), Duration::ZERO);
    assert_eq!(m.get_seq(), 8);
    assert!(!m.is_passed());
}

#[test]
fn conclude_drops_what_a_passed_measurer_timed() {
    let mut m = Measurer::default();
    m.update(Duration::from_secs(2));
    m.pass();
    let r = m.conclude(1).unwrap();
    assert_eq!(r.times(), 0);
    assert_eq!(r.total_elapsed(), Duration::ZERO);
    assert!(!m.is_measured());
}

#[test]
fn conclude_of_an_unused_measurer_fails() {
    let mut m = Measurer::default();
    let r = m.conclude(1);
    assert!(matches!(r, Err(BenchmarkError::MeasurerNotMeasured)));
    assert_eq!(m.get_seq(), 1);
}

#[test]
fn measure_loop_stops_at_break() {
    let mut m = Measurer::default();
    let mut seen = Vec::new();
    m.measure_loop(|i| {
        seen.push(i);
        if i == 4 {
            MeasureLoopResult::Break("done")
        } else {
            MeasureLoopResult::Continue
        }
    });
    assert_eq!(seen, vec![0, 1, 2, 3, 4]);
    assert_eq!(m.get_result().unwrap().times(), 5);
}

#[test]
fn measure_loop_times_the_round_that_breaks() {
    let mut m = Measurer::default();
    m.measure_loop(|_| MeasureLoopResult::Break(()));
    assert_eq!(m.get_result().unwrap().times(), 1);
}

#[test]
fn measure_while_loop_stops_when_the_condition_fails() {
    let mut m = Measurer::default();
    let mut asked = Vec::new();
    let mut ran = Vec::new();
    m.measure_while_loop(
        |i| {
            asked.push(i);
            i < 3
        },
        |i| {
            ran.push(i);
            MeasureLoopResult::<()>::Continue
        },
    );
    assert_eq!(asked, vec![0, 1, 2, 3]);
    assert_eq!(ran, vec![0, 1, 2]);
    assert_eq!(m.get_result().unwrap().times(), 3);
}

#[test]
fn measure_while_loop_times_nothing_when_the_condition_never_holds() {
    let mut m = Measurer::default();
    let mut ran = 0;
    m.measure_while_loop(
        |_| false,
        |_| {
            ran += 1;
            MeasureLoopResult::<()>::Continue
        },
    );
    assert_eq!(ran, 0);
    assert!(!m.is_measured());
    assert!(m.get_result().is_none());
}

#[test]
fn measure_while_loop_stops_at_break() {
    let mut m = Measurer::default();
    let mut asked = 0;
    m.measure_while_loop(
        |_| {
            asked += 1;
            true
        },
        |i| {
            if i == 1 {
                MeasureLoopResult::Break(i)
            } else {
                MeasureLoopResult::Continue
            }
        },
    );
    assert_eq!(asked, 2);
    assert_eq!(m.get_result().unwrap().times(), 2);
}

#[test]
fn measure_for_loop_times_every_item() {
    let mut m = Measurer::default();
    let mut seen = Vec::new();
    m.measure_for_loop(vec!['a', 'b', 'c', 'd'].into_iter(), |item, i| {
        seen.push((item, i));
        MeasureLoopResult::<()>::Continue
    });
    assert_eq!(seen, vec![('a', 0), ('b', 1), ('c', 2), ('d', 3)]);
    assert_eq!(m.get_result().unwrap().times(), 4);
}

#[test]
fn measure_for_loop_over_a_range() {
    let mut m = Measurer::default();
    let mut filled: Vec<usize> = Vec::new();
    m.measure_for_loop(0..100, |item, _| {
        filled.push(item);
        MeasureLoopResult::<()>::Continue
    });
    assert_eq!(filled.len(), 100);
    assert_eq!(m.get_result().unwrap().times(), 100);
}

#[test]
fn measure_for_loop_over_nothing_times_nothing() {
    let mut m = Measurer::default();
    m.measure_for_loop(Vec::<u8>::new().into_iter(), |_, _| MeasureLoopResult::<()>::Continue);
    assert!(!m.is_measured());
}

#[test]
fn measure_for_loop_stops_at_break() {
    let mut m = Measurer::default();
    let mut rounds = 0;
    m.measure_for_loop(10.., |item, i| {
        rounds += 1;
        assert_eq!(item, 10 + i);
        if i == 6 {
            MeasureLoopResult::Break(item)
        } else {
            MeasureLoopResult::Continue
        }
    });
    assert_eq!(rounds, 7);
    assert_eq!(m.get_result().unwrap().times(), 7);
}

#[test]
fn loops_add_to_what_was_timed_before() {
    let mut m = Measurer::default();
    m.measure(|| 1);
    m.measure_for_loop(0..3, |_, _| MeasureLoopResult::<()>::Continue);
    m.measure_loop(|i| if i == 1 { MeasureLoopResult::Break(()) } else { MeasureLoopResult::Continue });
    assert_eq!(m.get_result().unwrap().times(), 6);
}
