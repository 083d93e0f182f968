use benchmarking::MeasureResult;
use std::time::Duration;

fn result_of(times: u32, each: Duration) -> MeasureResult {
    let mut total = MeasureResult::empty();
    for _ in 0..times {
        total = total.merge(&MeasureResult::new(each));
    }
    total
}

#[test]
fn new_result_holds_one_span() {
    let r = MeasureResult::new(Duration::from_nanos(1500));
    assert_eq!(r.times(), 1);
    assert_eq!(r.total_elapsed(), Duration::from_nanos(1500));
    assert_eq!(r.elapsed(), Duration::from_nanos(1500));
}

#[test]
fn empty_result_holds_nothing() {
    let r = MeasureResult::empty();
    assert_eq!(r.times(), 0);
    assert_eq!(r.total_elapsed(), Duration::from_secs(0));
}

#[test]
fn merge_adds_counts_and_times() {
    let a = result_of(3, Duration::from_millis(20));
    let b = result_of(2, Duration::from_micros(7));
    let c = a.merge(&b);
    assert_eq!(c.times(), 5);
    assert_eq!(c.total_elapsed(), Duration::from_nanos(60_014_000));
    assert_eq!(a.times(), 3);
    assert_eq!(b.times(), 2);
}

#[test]
fn merge_with_empty_changes_nothing() {
    let a = result_of(4, Duration::from_nanos(9));
    let b = a.merge(&MeasureResult::empty());
    assert_eq!(b.times(), 4);
    assert_eq!(b.total_elapsed(), Duration::from_nanos(36));
    let c = MeasureResult::empty().merge(&a);
    assert_eq!(c.times(), 4);
    assert_eq!(c.total_elapsed(), Duration::from_nanos(36));
}

#[test]
fn merge_is_commutative() {
    let a = result_of(3, Duration::new(1, 999_999_999));
    let b = result_of(7, Duration::new(0, 1));
    let ab = a.merge(&b);
    let ba = b.merge(&a);
    assert_eq!(ab.times(), ba.times());
    assert_eq!(ab.total_elapsed(), ba.total_elapsed());
    assert_eq!(ab.times(), 10);
    assert_eq!(ab.total_elapsed(), Duration::new(6, 4));
}

#[test]
fn merge_is_associative() {
    let a = result_of(1, Duration::from_nanos(999_999_999));
    let b = result_of(2, Duration::from_nanos(1));
    let c = result_of(5, Duration::from_secs(3));
    let left = a.merge(&b).merge(&c);
    let right = a.merge(&b.merge(&c));
    assert_eq!(left.times(), 8);
    assert_eq!(right.times(), 8);
    assert_eq!(left.total_elapsed(), Duration::new(16, 1));
    assert_eq!(right.total_elapsed(), Duration::new(16, 1));
}

#[test]
fn merge_is_associative_at_the_longest_time() {
    let a = MeasureResult::new(Duration::MAX);
    let b = MeasureResult::new(Duration::from_secs(1));
    let c = MeasureResult::new(Duration::MAX);
    let left = a.merge(&b).merge(&c);
    let right = a.merge(&b.merge(&c));
    assert_eq!(left.times(), 3);
    assert_eq!(right.times(), 3);
    assert_eq!(left.total_elapsed(), Duration::MAX);
    assert_eq!(right.total_elapsed(), Duration::MAX);
}

#[test]
fn merge_stays_at_the_longest_time() {
    let a = MeasureResult::new(Duration::MAX);
    let b = MeasureResult::new(Duration::from_nanos(1));
    let c = a.merge(&b);
    assert_eq!(c.times(), 2);
    assert_eq!(c.total_elapsed(), Duration::MAX);
}

#[test]
fn merge_reaches_the_longest_time_exactly() {
    let a = MeasureResult::new(Duration::new(u64::MAX, 999_999_998));
    let b = MeasureResult::new(Duration::from_nanos(1));
    let c = a.merge(&b);
    assert_eq!(c.total_elapsed(), Duration::MAX);
    assert_eq!(c.total_elapsed(), Duration::new(u64::MAX, 999_999_999));
}

#[test]
fn elapsed_is_the_average() {
    let r = result_of(4, Duration::from_millis(250));
    assert_eq!(r.total_elapsed(), Duration::from_secs(1));
    assert_eq!(r.elapsed(), Duration::from_millis(250));
}

#[test]
fn elapsed_drops_the_remainder() {
    let r = MeasureResult::new(Duration::from_nanos(10))
        .merge(&MeasureResult::new(Duration::from_nanos(0)))
        .merge(&MeasureResult::new(Duration::from_nanos(0)));
    assert_eq!(r.times(), 3);
    assert_eq!(r.elapsed(), Duration::from_nanos(3));
}

#[test]
fn elapsed_carries_seconds_into_nanoseconds() {
    let r = MeasureResult::new(Duration::from_secs(3)).merge(&MeasureResult::new(Duration::ZERO));
    assert_eq!(r.elapsed(), Duration::new(1, 500_000_000));
}

#[test]
fn elapsed_of_the_longest_time() {
    let r = MeasureResult::new(Duration::MAX);
    assert_eq!(r.elapsed(), Duration::MAX);
    let half = r.merge(&MeasureResult::new(Duration::ZERO));
    assert_eq!(half.elapsed(), Duration::new(u64::MAX / 2, 999_999_999));
}

#[test]
fn times_and_total_elapsed_are_read_back() {
    let r = result_of(6, Duration::from_nanos(11));
    assert_eq!(r.times(), 6);
    assert_eq!(r.total_elapsed(), Duration::from_nanos(66));
}

#[test]
fn per_thread_keeps_the_count_and_divides_the_time() {
    let r = result_of(40, Duration::from_millis(100));
    let one = r.per_thread(4);
    assert_eq!(one.times(), 40);
    assert_eq!(one.total_elapsed(), Duration::from_millis(1000));
    let same = r.per_thread(1);
    assert_eq!(same.times(), 40);
    assert_eq!(same.total_elapsed(), Duration::from_millis(4000));
}

#[test]
fn per_thread_drops_the_remainder() {
    let r = MeasureResult::new(Duration::from_nanos(10));
    assert_eq!(r.per_thread(3).total_elapsed(), Duration::from_nanos(3));
    assert_eq!(r.per_thread(11).total_elapsed(), Duration::ZERO);
    assert_eq!(r.per_thread(11).times(), 1);
}

#[test]
fn clone_is_equal() {
    let r = result_of(2, Duration::from_nanos(21));
    let c = r.clone();
    assert_eq!(c.times(), 2);
    assert_eq!(c.total_elapsed(), Duration::from_nanos(42));
    assert_eq!(format!("{:?}", c), format!("{:?}", r));
}
