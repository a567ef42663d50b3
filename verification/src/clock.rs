//! The wall clock, read as whole seconds since the Unix epoch.

use std::time::{Duration, SystemTime, SystemTimeError};
use vstd::prelude::*;

verus! {

/// `std::time::SystemTime`, carried through opaquely.
#[verifier::external_type_specification]
#[verifier::external_body]
pub struct ExSystemTime(SystemTime);

/// `std::time::SystemTimeError`, carried through opaquely.
#[verifier::external_type_specification]
#[verifier::external_body]
pub struct ExSystemTimeError(SystemTimeError);

/// `SystemTime::now`: the current wall-clock time. Nothing is stated of it: it depends
/// on the moment of the call and on the machine's clock.
#[verifier::external_body]
fn system_time_now() -> SystemTime {
    SystemTime::now()
}

/// `SystemTime::duration_since(UNIX_EPOCH)`: the time elapsed since the Unix epoch, or
/// an error when `t` lies before it. Nothing is stated of the value: it depends on `t`,
/// which is opaque here.
#[verifier::external_body]
fn time_since_unix_epoch(t: &SystemTime) -> Result<Duration, SystemTimeError> {
    t.duration_since(std::time::UNIX_EPOCH)
}

/// `Duration::as_secs`: the whole seconds of `d`. Nothing is stated of the value: `d` is
/// opaque here.
#[verifier::external_body]
fn duration_whole_secs(d: &Duration) -> u64 {
    d.as_secs()
}

/// The whole seconds since the epoch when the clock stands after it (`Some`), else 0.
pub fn seconds_or_zero(elapsed: Option<u64>) -> (s: u64)
    ensures
        s == match elapsed {
            Some(secs) => secs,
            None => 0,
        },
{
    match elapsed {
        Some(secs) => secs,
        None => 0,
    }
}

/// Whole seconds since the Unix epoch, or 0 when the clock stands before it. What it
/// returns depends on the clock alone; the decisions that use it take it as an argument.
pub fn now_unix() -> u64 {
    let now = system_time_now();
    let elapsed = match time_since_unix_epoch(&now) {
        Ok(d) => Some(duration_whole_secs(&d)),
        Err(_) => None,
    };
    seconds_or_zero(elapsed)
}

} // verus!
