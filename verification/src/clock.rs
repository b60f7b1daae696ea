//! The places where the library reads a clock.

use vstd::prelude::*;

verus! {

/// `std::time::Instant`, carried through as an opaque value.
#[verifier::external_type_specification]
#[verifier::external_body]
pub struct ExInstant(std::time::Instant);

/// Seconds since the Unix epoch, negative for a clock that stands before
/// it: the system time of `SystemTime::now`, taken through chrono's
/// conversion into `DateTime<Utc>` and its `timestamp`. Nothing is promised
/// of the value: it changes from call to call.
#[verifier::external_body]
pub(crate) fn current_timestamp() -> (now: i64) {
    chrono::DateTime::<chrono::Utc>::from(std::time::SystemTime::now()).timestamp()
}

/// The present moment of the monotonic clock, from `Instant::now`.
#[verifier::external_body]
pub(crate) fn instant_now() -> (now: std::time::Instant) {
    std::time::Instant::now()
}

/// The time that has passed since `origin`, from `Instant::elapsed`.
/// Nothing is promised of the value.
#[verifier::external_body]
pub(crate) fn elapsed_since(origin: &std::time::Instant) -> (passed: std::time::Duration) {
    origin.elapsed()
}

/// `Duration::as_millis`: the whole milliseconds of a duration. Nothing is
/// stated of the value.
pub assume_specification[ std::time::Duration::as_millis ](duration: &std::time::Duration) -> (ms:
    u128)
;

/// Whole milliseconds that have passed since `origin`, as far as a `u64`
/// can hold them. The value is whatever the clock gives, so nothing is
/// promised of it; what is made of the clock's answer is
/// [`saturate_millis`].
pub(crate) fn millis_since(origin: &std::time::Instant) -> (ms: u64) {
    let passed = elapsed_since(origin);
    saturate_millis(passed.as_millis())
}

/// A count of milliseconds as far as a `u64` can hold it: the count
/// itself, or the largest `u64` where the count is larger.
pub open spec fn saturated_millis(ms: u128) -> u64 {
    if ms > u64::MAX {
        u64::MAX
    } else {
        ms as u64
    }
}

/// Brings a count of milliseconds into a `u64`, stopping at the largest.
pub fn saturate_millis(ms: u128) -> (r: u64)
    ensures
        r == saturated_millis(ms),
{
    if ms > 0xffff_ffff_ffff_ffffu128 {
        0xffff_ffff_ffff_ffffu64
    } else {
        ms as u64
    }
}

} // verus!
