//! The time that the native `clock` reports.

use vstd::prelude::*;
use crate::number;
use std::time::{SystemTime, UNIX_EPOCH};

verus! {

/// The number of nanoseconds in a second.
pub const NANOS_PER_SECOND: u64 = 1_000_000_000;

/// `std::time::SystemTime`: a reading of the system clock.
#[verifier::external_type_specification]
#[verifier::external_body]
pub struct ExSystemTime(SystemTime);

/// `SystemTime::now` of std: the system clock as it stands. Nothing is known
/// of the reading.
#[verifier::external_body]
pub(crate) fn read_system_clock() -> (r: SystemTime) {
    SystemTime::now()
}

/// `SystemTime::duration_since` of std, taken from the Unix epoch: the whole
/// seconds and the nanoseconds of the time between the epoch and the reading,
/// or `None` where the reading lies before the epoch.
#[verifier::external_body]
pub(crate) fn since_epoch(reading: &SystemTime) -> (r: Option<(u64, u32)>) {
    match reading.duration_since(UNIX_EPOCH) {
        Ok(elapsed) => Some((elapsed.as_secs(), elapsed.subsec_nanos())),
        Err(_) => None,
    }
}

/// The binary64 value of a time given in whole seconds and nanoseconds:
/// the seconds plus the nanoseconds divided by a billion, each step rounded.
pub open spec fn seconds_bits(seconds: u64, nanos: u32) -> u64 {
    number::sum_bits(
        number::integer_bits(seconds),
        number::quotient_bits(number::integer_bits(nanos as u64), number::integer_bits(NANOS_PER_SECOND)),
    )
}

/// The value of `clock` for a reading of the system clock; a clock that stands
/// before the epoch reads as zero.
pub open spec fn reading_bits(reading: Option<(u64, u32)>) -> u64 {
    match reading {
        Some((seconds, nanos)) => seconds_bits(seconds, nanos),
        None => 0,
    }
}

/// The value of `clock` for a reading of the system clock.
pub fn clock_value(reading: Option<(u64, u32)>) -> (r: u64)
    ensures
        r == reading_bits(reading),
{
    match reading {
        Some((seconds, nanos)) => {
            let whole = number::from_integer(seconds);
            let fraction = number::quotient(
                number::from_integer(nanos as u64),
                number::from_integer(NANOS_PER_SECOND),
            );
            number::sum(whole, fraction)
        },
        None => 0,
    }
}

/// The value of `clock` now: the value for the reading that the system clock
/// gives, whatever that reading is.
pub fn now() -> (r: u64)
    ensures
        exists|reading: Option<(u64, u32)>| r == #[trigger] reading_bits(reading),
{
    let instant = read_system_clock();
    let reading = since_epoch(&instant);
    let r = clock_value(reading);
    assert(r == reading_bits(reading));
    r
}

} // verus!
