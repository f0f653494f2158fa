use vstd::prelude::*;

use std::time::{Duration, SystemTime, SystemTimeError, UNIX_EPOCH};

verus! {

#[verifier::external_type_specification]
#[verifier::external_body]
pub struct ExSystemTime(SystemTime);

#[verifier::external_type_specification]
#[verifier::external_body]
pub struct ExSystemTimeError(SystemTimeError);

/// `SystemTime::now`: the current wall-clock time. Nothing is stated of it.
#[verifier::external_body]
fn clock_now() -> SystemTime {
    SystemTime::now()
}

/// `SystemTime::duration_since` with the Unix epoch as the earlier time:
/// how long after the epoch `t` lies, or an error when `t` lies before it.
/// Nothing is stated of which comes back.
#[verifier::external_body]
fn since_epoch(t: SystemTime) -> Result<Duration, SystemTimeError> {
    t.duration_since(UNIX_EPOCH)
}

/// `Duration::as_secs`: the whole seconds of a span. The span is opaque
/// here, so nothing is stated of the number.
#[verifier::external_body]
fn whole_secs(d: Duration) -> u64 {
    d.as_secs()
}

/// Turns a reading of the clock into a world seed: the whole seconds since
/// the Unix epoch, or 42 when the clock could not be read that way.
pub fn seed_from_clock(secs_since_epoch: Option<u64>) -> (seed: u64)
    ensures
        seed == match secs_since_epoch {
            Some(s) => s,
            None => 42u64,
        },
{
    match secs_since_epoch {
        Some(s) => s,
        None => 42,
    }
}

/// A seed for a fresh world taken from the clock (see [`seed_from_clock`]).
pub fn default_seed() -> u64 {
    let now = clock_now();
    let secs = match since_epoch(now) {
        Ok(d) => Some(whole_secs(d)),
        Err(_) => None,
    };
    seed_from_clock(secs)
}

} // verus!
