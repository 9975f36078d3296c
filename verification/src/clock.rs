//! The wall clock, in microseconds since the Unix epoch.

use std::time::{Duration, SystemTime, SystemTimeError};
use vstd::prelude::*;

verus! {

/// A reading of the wall clock.
#[verifier::external_type_specification]
#[verifier::external_body]
pub struct ExSystemTime(std::time::SystemTime);

/// What the standard library reports of a reading that lies before another.
#[verifier::external_type_specification]
#[verifier::external_body]
pub struct ExSystemTimeError(std::time::SystemTimeError);

/// The time from the Unix epoch to the reading `t`, or the error where `t`
/// lies before the epoch.
pub uninterp spec fn time_since_epoch(t: SystemTime) -> Result<Duration, SystemTimeError>;

/// The number of nanoseconds in `d`.
pub uninterp spec fn total_nanos(d: Duration) -> u128;

/// `std::time::SystemTime::now` reads the wall clock. Nothing is claimed of
/// the reading.
pub assume_specification[ std::time::SystemTime::now ]() -> SystemTime
;

/// `std::time::Duration::as_micros` returns the number of whole microseconds
/// that the duration contains: a thousandth of its nanoseconds, rounded down.
pub assume_specification[ std::time::Duration::as_micros ](d: &Duration) -> (r: u128)
    ensures
        r == total_nanos(*d) / 1000,
;

/// `std::time::SystemTime::duration_since`, with the Unix epoch as the earlier
/// time, is a function of the reading alone.
#[verifier::external_body]
fn duration_since_epoch(t: &SystemTime) -> (r: Result<Duration, SystemTimeError>)
    ensures
        r == time_since_epoch(*t),
{
    t.duration_since(std::time::UNIX_EPOCH)
}

/// The clock stands before the Unix epoch.
#[derive(Clone, Copy, Debug, PartialEq, Eq, Structural)]
pub struct ClockBeforeEpoch;

/// The whole microseconds from the Unix epoch to the reading `t`.
pub open spec fn micros_at(t: SystemTime) -> Result<u128, ClockBeforeEpoch> {
    match time_since_epoch(t) {
        Ok(d) => Ok(total_nanos(d) / 1000),
        Err(_) => Err(ClockBeforeEpoch),
    }
}

/// The microseconds from the Unix epoch to the reading `t`.
pub fn micros_since_epoch(t: &SystemTime) -> (r: Result<u128, ClockBeforeEpoch>)
    ensures
        r == micros_at(*t),
        match time_since_epoch(*t) {
            Ok(d) => r matches Ok(us) && us * 1000 <= total_nanos(d) < (us + 1) * 1000,
            Err(_) => r is Err,
        },
{
    match duration_since_epoch(t) {
        Ok(d) => Ok(d.as_micros()),
        Err(_) => Err(ClockBeforeEpoch),
    }
}

/// The microseconds from the Unix epoch to now: those of some clock reading.
pub fn now_us() -> (r: Result<u128, ClockBeforeEpoch>)
    ensures
        exists|t: SystemTime| r == #[trigger] micros_at(t),
{
    let t = SystemTime::now();
    micros_since_epoch(&t)
}

/// A reading is given in whole microseconds, rounded down; one before the epoch
/// is refused.
pub proof fn law_micros_exact(t: SystemTime)
    ensures
        match time_since_epoch(t) {
            Ok(d) => micros_at(t) matches Ok(us) && us * 1000 <= total_nanos(d) < (us + 1) * 1000,
            Err(_) => micros_at(t) is Err,
        },
{
}

} // verus!
