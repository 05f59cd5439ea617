//! The monotonic clock that the cooldown and timeout rules read.
//!
//! Every rule of the crate that depends on time is a function of a reading
//! of this clock, in milliseconds. The functions that read the clock
//! themselves only pass the reading on.

use vstd::prelude::*;

verus! {

/// `std::time::Instant`, a point on the monotonic clock. Nothing is known of
/// what it holds.
#[verifier::external_type_specification]
#[verifier::external_body]
pub struct ExInstant(std::time::Instant);

/// `Instant::now`: the present moment. Nothing is claimed of the result.
pub assume_specification[ std::time::Instant::now ]() -> (now: std::time::Instant)
;

/// `Instant::elapsed`: the time since an instant. Nothing is claimed of the
/// result.
pub assume_specification[ std::time::Instant::elapsed ](instant: &std::time::Instant) -> (d:
    std::time::Duration)
;

/// `Duration::as_millis`: the whole milliseconds of a duration. Nothing is
/// claimed of the result.
pub assume_specification[ std::time::Duration::as_millis ](d: &std::time::Duration) -> (ms: u128)
;

/// Milliseconds in a second.
pub const MILLIS_PER_SECOND: u64 = 1000;

/// The whole seconds from one clock reading to a later one, zero where the
/// second reading is not later.
pub open spec fn elapsed_secs(now: nat, then: nat) -> nat {
    if now >= then {
        ((now - then) / 1000) as nat
    } else {
        0
    }
}

/// The whole seconds from the reading `then` to the reading `now`.
pub fn seconds_between(now: u64, then: u64) -> (secs: u64)
    ensures
        secs == elapsed_secs(now as nat, then as nat),
{
    if now >= then {
        (now - then) / MILLIS_PER_SECOND
    } else {
        0
    }
}

/// A count of milliseconds as a clock reading: the count itself, or the
/// largest reading where the count does not fit.
pub open spec fn reading_of(millis: nat) -> nat {
    if millis > u64::MAX {
        u64::MAX as nat
    } else {
        millis
    }
}

/// A count of milliseconds as a clock reading.
pub fn reading_from_millis(millis: u128) -> (reading: u64)
    ensures
        reading == reading_of(millis as nat),
{
    if millis > u64::MAX as u128 {
        u64::MAX
    } else {
        millis as u64
    }
}

/// A clock that counts the milliseconds since it was made.
pub struct MonotonicClock {
    origin: std::time::Instant,
}

impl MonotonicClock {
    /// A clock that starts now.
    pub fn new() -> MonotonicClock {
        MonotonicClock { origin: std::time::Instant::now() }
    }

    /// The milliseconds since the clock was made. The reading stops at the
    /// largest number that fits.
    pub fn now_ms(&self) -> u64 {
        let elapsed = self.origin.elapsed();
        reading_from_millis(elapsed.as_millis())
    }
}

} // verus!
