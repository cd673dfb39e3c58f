//! Timestamps for samples, read from the system clock.
use std::time::Duration;
use std::time::SystemTime;
use std::time::SystemTimeError;
use vstd::prelude::*;

verus! {

#[verifier::external_type_specification]
#[verifier::external_body]
pub struct ExSystemTime(SystemTime);

#[verifier::external_type_specification]
#[verifier::external_body]
pub struct ExSystemTimeError(SystemTimeError);

/// Relies on `std::time::SystemTime::now`: the current reading of the system clock.
#[verifier::external_body]
fn clock_now() -> SystemTime {
    SystemTime::now()
}

/// Relies on `std::time::SystemTime::duration_since`, from `UNIX_EPOCH`: the
/// time elapsed since the epoch, or an error where the clock reads earlier.
#[verifier::external_body]
fn since_unix_epoch(t: &SystemTime) -> Result<Duration, SystemTimeError> {
    t.duration_since(std::time::UNIX_EPOCH)
}

/// Relies on `std::time::Duration::as_secs`: the whole seconds of `d`.
#[verifier::external_body]
fn whole_seconds(d: &Duration) -> u64 {
    d.as_secs()
}

/// Relies on `std::time::Duration::subsec_millis`: the whole milliseconds
/// of the fractional part of a second of `d`, which std documents as less
/// than one thousand.
#[verifier::external_body]
fn fraction_millis(d: &Duration) -> (r: u32)
    ensures
        r < 1000,
{
    d.subsec_millis()
}

/// The largest number of milliseconds that a reading of the clock can give:
/// `u64::MAX` seconds and 999 milliseconds.
pub const MAX_MILLIS: u128 = 18_446_744_073_709_551_615_999;

/// The whole milliseconds of a span of `secs` seconds and `sub_ms`
/// milliseconds.
pub fn millis_of(secs: u64, sub_ms: u32) -> (r: u128)
    ensures
        r == secs * 1000 + sub_ms,
{
    secs as u128 * 1000 + sub_ms as u128
}

/// The timestamp recorded for a sample: the milliseconds elapsed since the
/// Unix epoch where the clock could be read, zero where it could not.
pub fn timestamp_or_default(elapsed_ms: Option<u128>) -> (r: u128)
    ensures
        r == match elapsed_ms {
            Some(ms) => ms,
            None => 0,
        },
{
    match elapsed_ms {
        Some(ms) => ms,
        None => 0,
    }
}

/// Milliseconds since the Unix epoch by the system clock, or zero where the
/// clock reads earlier than the epoch. What the clock reads is the host's:
/// of the value, only its bound is promised.
pub fn current_millis() -> (r: u128)
    ensures
        r <= MAX_MILLIS,
{
    let now = clock_now();
    let elapsed = match since_unix_epoch(&now) {
        Ok(d) => Some(millis_of(whole_seconds(&d), fraction_millis(&d))),
        Err(_) => None,
    };
    timestamp_or_default(elapsed)
}

} // verus!
