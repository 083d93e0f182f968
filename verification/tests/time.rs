use benchmarking::time::{duration_of_nanos, reaches, total_nanos, MAX_NANOS, NANOS_PER_SEC};
use std::time::Duration;

#[test]
fn total_nanos_counts_seconds_and_nanoseconds() {
    assert_eq!(total_nanos(&Duration::new(0, 0)), 0);
    assert_eq!(total_nanos(&Duration::new(0, 7)), 7);
    assert_eq!(total_nanos(&Duration::new(2, 5)), 2_000_000_005);
    assert_eq!(total_nanos(&Duration::from_millis(5000)), 5_000_000_000);
}

#[test]
fn total_nanos_of_the_longest_duration() {
    assert_eq!(total_nanos(&Duration::MAX), MAX_NANOS);
    assert_eq!(MAX_NANOS, u64::MAX as u128 * NANOS_PER_SEC + 999_999_999);
    assert_eq!(total_nanos(&Duration::MAX), Duration::MAX.as_nanos());
}

#[test]
fn duration_of_nanos_splits_seconds_and_nanoseconds() {
    assert_eq!(duration_of_nanos(0), Duration::from_secs(0));
    assert_eq!(duration_of_nanos(999_999_999), Duration::new(0, 999_999_999));
    assert_eq!(duration_of_nanos(1_000_000_000), Duration::new(1, 0));
    assert_eq!(duration_of_nanos(3_000_000_042), Duration::new(3, 42));
    assert_eq!(duration_of_nanos(MAX_NANOS), Duration::MAX);
}

#[test]
fn duration_round_trip() {
    let d = Duration::new(123_456, 789_012_345);
    assert_eq!(duration_of_nanos(total_nanos(&d)), d);
    assert_eq!(total_nanos(&duration_of_nanos(98_765_432_101)), 98_765_432_101);
}

#[test]
fn budget_of_zero_is_reached_at_once() {
    assert!(reaches(&Duration::ZERO, &Duration::ZERO));
    assert!(reaches(&Duration::from_nanos(1), &Duration::ZERO));
}

#[test]
fn budget_is_reached_when_as_much_time_has_passed() {
    assert!(!reaches(&Duration::from_nanos(99_999_999), &Duration::from_millis(100)));
    assert!(reaches(&Duration::from_millis(100), &Duration::from_millis(100)));
    assert!(reaches(&Duration::from_nanos(100_000_001), &Duration::from_millis(100)));
}

#[test]
fn budget_is_held_against_seconds_and_nanoseconds() {
    assert!(!reaches(&Duration::new(1, 999_999_999), &Duration::new(2, 0)));
    assert!(reaches(&Duration::new(2, 0), &Duration::new(1, 999_999_999)));
    assert!(!reaches(&Duration::new(0, 5), &Duration::new(5, 0)));
    assert!(reaches(&Duration::MAX, &Duration::MAX));
    assert!(!reaches(&Duration::ZERO, &Duration::MAX));
}
