//! Reading the wall clock.
use vstd::prelude::*;
use std::time::{Duration, SystemTime, UNIX_EPOCH};

verus! {

#[verifier::external_type_specification]
#[verifier::external_body]
pub struct ExSystemTime(SystemTime);

/// Calls `std::time::SystemTime::now`. The result depends on the machine's
/// clock, so nothing is stated of it.
#[verifier::external_body]
fn system_time_now() -> SystemTime {
    SystemTime::now()
}

/// Calls `SystemTime::duration_since(UNIX_EPOCH)` on `t`, turning its
/// error (the time lies before the epoch) into `None`. The duration is an
/// opaque value here: nothing is stated of it.
#[verifier::external_body]
fn duration_since_unix_epoch(t: &SystemTime) -> Option<Duration> {
    match t.duration_since(UNIX_EPOCH) {
        Ok(d) => Some(d),
        Err(_) => None,
    }
}

/// Calls `Duration::as_millis`, the whole milliseconds in `d`. A `Duration`
/// is opaque here, so the count is left unsaid beyond its type.
#[verifier::external_body]
fn duration_whole_millis(d: &Duration) -> u128 {
    d.as_millis()
}

/// The millisecond count of a clock reading: the whole milliseconds since
/// the Unix epoch truncated to 64 bits, or 0 for a reading before the epoch
/// (`None`).
pub fn millis_from_elapsed(elapsed: Option<u128>) -> (ms: u64)
    ensures
        ms == match elapsed {
            Some(m) => m as u64,
            None => 0u64,
        },
{
    match elapsed {
        Some(m) => {
            #[verifier::truncate]
            (m as u64)
        },
        None => 0,
    }
}

/// Milliseconds since the Unix epoch by the system clock, truncated to 64
/// bits; 0 when the clock reads a time before the epoch.
pub fn now_millis() -> (ms: u64) {
    let now = system_time_now();
    let elapsed: Option<u128> = match duration_since_unix_epoch(&now) {
        Some(d) => Some(duration_whole_millis(&d)),
        None => None,
    };
    millis_from_elapsed(elapsed)
}

} // verus!
