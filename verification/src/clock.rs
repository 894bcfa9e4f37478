//! Readings of the monotonic and the wall clock, as plain millisecond counts.

use std::time::{Duration, Instant, SystemTime};
use vstd::prelude::*;

verus! {

#[verifier::external_type_specification]
#[verifier::external_body]
pub struct ExInstant(Instant);

#[verifier::external_type_specification]
#[verifier::external_body]
pub struct ExSystemTime(SystemTime);

/// Calls `std::time::Instant::now`. The reading depends on the clock, so
/// nothing is promised of it.
#[verifier::external_body]
pub(crate) fn instant_now() -> Instant {
    Instant::now()
}

/// Calls `std::time::Instant::elapsed`: the time that has passed since
/// `origin` was read. It depends on the clock, so nothing is promised of it.
#[verifier::external_body]
pub(crate) fn instant_elapsed(origin: &Instant) -> Duration {
    origin.elapsed()
}

/// Calls `std::time::Duration::as_millis`: the whole milliseconds in `d`.
/// `Duration` is opaque here, so the contract cannot relate the count to `d`.
#[verifier::external_body]
pub(crate) fn duration_as_millis(d: &Duration) -> u128 {
    d.as_millis()
}

/// Calls `std::time::SystemTime::now`. The reading depends on the clock, so
/// nothing is promised of it.
#[verifier::external_body]
pub(crate) fn system_time_now() -> SystemTime {
    SystemTime::now()
}

/// Calls `std::time::SystemTime::duration_since` with `UNIX_EPOCH`; its error
/// (a reading before the epoch) becomes `None`. Which of the two comes back
/// depends on the reading, so nothing more is promised.
#[verifier::external_body]
pub(crate) fn since_unix_epoch(t: &SystemTime) -> Option<Duration> {
    match t.duration_since(std::time::UNIX_EPOCH) {
        Ok(d) => Some(d),
        Err(_) => None,
    }
}

/// Whole milliseconds since `origin` on the monotonic clock. A count beyond
/// `u64::MAX` (some 584 million years) reads as `u64::MAX`.
pub(crate) fn elapsed_ms(origin: &Instant) -> u64 {
    let ms = duration_as_millis(&instant_elapsed(origin));
    if ms > 0xffff_ffff_ffff_ffffu128 {
        0xffff_ffff_ffff_ffffu64
    } else {
        ms as u64
    }
}

} // verus!
