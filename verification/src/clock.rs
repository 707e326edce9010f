//! The time of day.

use std::time::Duration;
use std::time::SystemTime;
use std::time::SystemTimeError;
use vstd::prelude::*;

verus! {

/// A point in time, as the system's clock tells it.
#[verifier::external_type_specification]
#[verifier::external_body]
pub struct ExSystemTime(SystemTime);

/// What comes back where one point in time lies after another.
#[verifier::external_type_specification]
#[verifier::external_body]
pub struct ExSystemTimeError(SystemTimeError);

/// `SystemTime::now` reads the clock. Nothing is claimed of what it shows.
pub assume_specification[ SystemTime::now ]() -> (t: SystemTime)
;

/// How long after the start of 1970 a point in time lies, if it lies no earlier.
pub uninterp spec fn past_epoch(t: SystemTime) -> Option<Duration>;

/// `SystemTime::duration_since`, from the start of 1970: a duration comes back,
/// or an error if the time lies before that, and which of them depends on the
/// time alone. Nothing is claimed of what an error holds.
#[verifier::external_body]
fn since_epoch(t: SystemTime) -> (r: Result<Duration, SystemTimeError>)
    ensures
        r is Ok <==> past_epoch(t) is Some,
        r matches Ok(d) ==> past_epoch(t) == Some(d),
{
    t.duration_since(std::time::UNIX_EPOCH)
}

/// How many whole seconds a duration has.
pub uninterp spec fn whole_seconds(d: Duration) -> u64;

/// `Duration::as_secs` counts the whole seconds of a duration; how many there
/// are depends on the duration alone.
pub assume_specification[ Duration::as_secs ](d: &Duration) -> (n: u64)
    ensures
        n == whole_seconds(*d),
;

/// The seconds from the start of 1970 to a point in time; zero, if it lies
/// before that.
pub open spec fn unix_seconds(t: SystemTime) -> u64 {
    match past_epoch(t) {
        Some(d) => whole_seconds(d),
        None => 0,
    }
}

/// The time in seconds, out of the seconds since the start of 1970: zero, if
/// the clock stands before that.
pub fn seconds_or_zero(since: Option<u64>) -> (n: u64)
    ensures
        n == (match since {
            Some(s) => s,
            None => 0,
        }),
{
    match since {
        Some(s) => s,
        None => 0,
    }
}

/// The seconds from the start of 1970 to a point in time.
pub fn seconds_at(t: SystemTime) -> (n: u64)
    ensures
        n == unix_seconds(t),
{
    let since: Option<u64> = match since_epoch(t) {
        Ok(d) => Some(d.as_secs()),
        Err(_) => None,
    };
    seconds_or_zero(since)
}

/// The time in seconds since the start of 1970: those of the point in time that
/// `SystemTime::now` gave. Which one that is, is not told.
pub fn unix_now() -> (n: u64)
    ensures
        exists|t: SystemTime|
            n == #[trigger] unix_seconds(t) && call_ensures(SystemTime::now, (), t),
{
    seconds_at(SystemTime::now())
}

} // verus!
