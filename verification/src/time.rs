//! The clock and the durations it hands out.
//!
//! `std::time::Duration` and `std::time::Instant` are opaque to the verifier. A duration is
//! modelled by the two numbers it is made of, its whole seconds and the nanoseconds of its
//! last, unfinished second; an instant has no model at all, since nothing can be known about
//! what the clock will say.

use vstd::prelude::*;
use std::time::{Duration, Instant};

verus! {

/// Nanoseconds in one second.
pub const NANOS_PER_SEC: u128 = 1_000_000_000;

/// The longest time a `Duration` can hold, in nanoseconds: `u64::MAX` whole seconds and
/// 999,999,999 nanoseconds more.
pub const MAX_NANOS: u128 = 18_446_744_073_709_551_615_999_999_999;

/// `std::time::Instant`, a reading of the clock. Nothing is known of what is in it.
#[verifier::external_type_specification]
#[verifier::external_body]
pub struct ExInstant(Instant);

/// What `Duration::as_secs` returns: the whole seconds of a duration.
pub uninterp spec fn whole_seconds(d: Duration) -> u64;

/// What `Duration::subsec_nanos` returns: the nanoseconds beyond the whole seconds.
pub uninterp spec fn subsecond_nanos(d: Duration) -> u32;

/// The length of a duration in nanoseconds.
pub open spec fn nanos_of(d: Duration) -> nat {
    (whole_seconds(d) * 1_000_000_000 + subsecond_nanos(d)) as nat
}

/// `Duration::as_secs`, unverified: the result is the duration's whole seconds.
pub assume_specification[ Duration::as_secs ](d: &Duration) -> (secs: u64)
    ensures
        secs == whole_seconds(*d),
;

/// `Duration::subsec_nanos`, unverified: the result is the fractional part of the duration
/// in nanoseconds, which std documents to be less than one billion.
pub assume_specification[ Duration::subsec_nanos ](d: &Duration) -> (nanos: u32)
    ensures
        nanos == subsecond_nanos(*d),
        nanos < 1_000_000_000,
;

/// `Duration::new`, unverified: with less than a second's worth of nanoseconds nothing is
/// carried over, so the new duration is made of exactly the two numbers given. (With more,
/// std carries into the seconds and panics when they overflow; that is left out.)
pub assume_specification[ Duration::new ](secs: u64, nanos: u32) -> (d: Duration)
    requires
        nanos < 1_000_000_000,
    ensures
        whole_seconds(d) == secs,
        subsecond_nanos(d) == nanos,
;

/// `Instant::now`, unverified: nothing is claimed about the instant returned.
pub assume_specification[ Instant::now ]() -> (t: Instant);

/// `Instant::elapsed`, unverified: nothing is claimed about the time that has passed.
pub assume_specification[ Instant::elapsed ](t: &Instant) -> (d: Duration);

/// `std::hint::black_box`, unverified: std documents it as an identity function that the
/// optimizer cannot see through.
pub assume_specification<T>[ std::hint::black_box::<T> ](dummy: T) -> (r: T)
    ensures
        r == dummy,
;

/// The length of `d` in nanoseconds.
pub fn total_nanos(d: &Duration) -> (n: u128)
    ensures
        n == nanos_of(*d),
        n <= MAX_NANOS,
{
    let secs: u64 = d.as_secs();
    let nanos: u32 = d.subsec_nanos();
    secs as u128 * NANOS_PER_SEC + nanos as u128
}

/// The duration that is `n` nanoseconds long.
pub fn duration_of_nanos(n: u128) -> (d: Duration)
    requires
        n <= MAX_NANOS,
    ensures
        nanos_of(d) == n,
        whole_seconds(d) == n / 1_000_000_000,
        subsecond_nanos(d) == n % 1_000_000_000,
{
    let secs: u128 = n / NANOS_PER_SEC;
    let nanos: u128 = n % NANOS_PER_SEC;
    Duration::new(secs as u64, nanos as u32)
}

/// Whether a time that has passed uses up a budget: whether `passed` is at least as long
/// as `budget`.
pub fn reaches(passed: &Duration, budget: &Duration) -> (spent: bool)
    ensures
        spent == (nanos_of(*passed) >= nanos_of(*budget)),
{
    total_nanos(passed) >= total_nanos(budget)
}

} // verus!
