//! The clock, as the tool reads it for time stamps and unique names.
use vstd::prelude::*;
use std::time::{SystemTime, SystemTimeError, Duration, UNIX_EPOCH};

verus! {

#[verifier::external_type_specification]
#[verifier::external_body]
pub struct ExSystemTime(SystemTime);

#[verifier::external_type_specification]
#[verifier::external_body]
pub struct ExSystemTimeError(SystemTimeError);

/// `SystemTime::now`: the current time of the system clock. Nothing is
/// stated of it.
#[verifier::external_body]
fn clock_now() -> (r: SystemTime) {
    SystemTime::now()
}

/// `SystemTime::duration_since(UNIX_EPOCH)`: the time since the epoch, or an
/// error for a time before it. Nothing is stated of which comes back.
#[verifier::external_body]
fn since_epoch(t: &SystemTime) -> (r: Result<Duration, SystemTimeError>) {
    t.duration_since(UNIX_EPOCH)
}

/// `Duration::as_secs`: the whole seconds of a duration. Nothing is stated
/// of the value, which depends on the clock that gave the duration.
#[verifier::external_body]
fn whole_secs(d: &Duration) -> (r: u64) {
    d.as_secs()
}

/// The whole nanoseconds of the longest duration: `u64::MAX` seconds and
/// 999,999,999 nanoseconds, as `Duration::MAX` is documented.
pub open spec fn max_duration_nanos() -> int {
    18446744073709551615int * 1000000000int + 999999999int
}

/// `Duration::as_nanos`: the whole nanoseconds of a duration, which holds at
/// most `u64::MAX` seconds and 999,999,999 nanoseconds; which value within
/// that bound is not stated, since it depends on the clock that gave the
/// duration.
#[verifier::external_body]
fn whole_nanos(d: &Duration) -> (r: u128)
    ensures
        r <= max_duration_nanos(),
{
    d.as_nanos()
}

/// Seconds since the Unix epoch, or 0 when the clock is before it.
pub fn now_unix_secs() -> (r: u64) {
    let now = clock_now();
    match since_epoch(&now) {
        Ok(d) => whole_secs(&d),
        Err(_) => 0,
    }
}

/// Nanoseconds since the Unix epoch, or 0 when the clock is before it; never
/// more than a duration can hold.
pub fn now_unix_nanos() -> (r: u128)
    ensures
        r <= max_duration_nanos(),
{
    let now = clock_now();
    match since_epoch(&now) {
        Ok(d) => whole_nanos(&d),
        Err(_) => 0,
    }
}

} // verus!
