//! The time of an operation: milliseconds since the start of 1970.

use crate::errors::RegistryError;
use std::time::{Duration, SystemTime, UNIX_EPOCH};
use vstd::prelude::*;

verus! {

/// `std::time::SystemTime`: a reading of the system clock, carried from
/// one call to the next. Nothing is claimed of what it holds.
#[verifier::external_type_specification]
#[verifier::external_body]
pub struct ExSystemTime(SystemTime);

/// `SystemTime::now` of std: the time on the system clock. Nothing is
/// claimed of it.
#[verifier::external_body]
fn clock_now() -> (now: SystemTime) {
    SystemTime::now()
}

/// `SystemTime::duration_since` of std, taken against `UNIX_EPOCH`: the
/// span from the epoch to the time, or nothing where the time lies before
/// the epoch. Nothing is claimed of it.
#[verifier::external_body]
fn since_epoch(time: &SystemTime) -> (span: Option<Duration>) {
    time.duration_since(UNIX_EPOCH).ok()
}

/// `Duration::as_millis` of std: the whole milliseconds in a span. Nothing
/// is claimed of it.
#[verifier::external_body]
fn whole_millis(span: &Duration) -> (millis: u128) {
    span.as_millis()
}

/// The timestamp that a clock reading stands for. A clock that stands
/// before the epoch gives none.
pub fn timestamp_of(reading: Option<u128>) -> (r: Result<u128, RegistryError>)
    ensures
        match reading {
            Some(millis) => r == Ok::<u128, RegistryError>(millis),
            None => r == Err::<u128, RegistryError>(RegistryError::ClockBeforeEpoch),
        },
{
    match reading {
        Some(millis) => Ok(millis),
        None => Err(RegistryError::ClockBeforeEpoch),
    }
}

/// The timestamp of this moment. Which one comes out is up to the clock.
pub fn current_timestamp() -> (r: Result<u128, RegistryError>)
    ensures
        r matches Err(e) ==> e == RegistryError::ClockBeforeEpoch,
{
    let now = clock_now();
    let reading: Option<u128> = match since_epoch(&now) {
        Some(span) => Some(whole_millis(&span)),
        None => None,
    };
    timestamp_of(reading)
}

} // verus!
