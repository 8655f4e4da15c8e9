//! The clocks that stamp what happens: a monotonic one, and the time of day.

use vstd::prelude::*;

verus! {

/// `std::time::Instant`, a reading of the monotonic clock.
#[verifier::external_type_specification]
#[verifier::external_body]
pub struct ExInstant(std::time::Instant);

/// `Instant::now`: a reading of the monotonic clock. Nothing is claimed of which.
#[verifier::external_body]
fn instant_now() -> std::time::Instant {
    std::time::Instant::now()
}

/// `Instant::elapsed`, in nanoseconds. Nothing is claimed of how many they are.
#[verifier::external_body]
fn nanos_since(start: &std::time::Instant) -> u128 {
    start.elapsed().as_nanos()
}

/// `SystemTime::now`, in nanoseconds since the Unix epoch, negative before it. Nothing is claimed
/// of how many they are.
#[verifier::external_body]
pub(crate) fn time_of_day() -> i128 {
    match std::time::SystemTime::now().duration_since(std::time::UNIX_EPOCH) {
        Ok(since) => since.as_nanos() as i128,
        Err(before) => -(before.duration().as_nanos() as i128),
    }
}

/// Nanoseconds in a second.
pub const NANOS_PER_SECOND: u128 = 1_000_000_000;

/// A monotonic clock that counts nanoseconds from when it was made.
#[derive(Debug)]
pub struct Clock {
    start: std::time::Instant,
}

impl Clock {
    /// A clock that starts now.
    pub fn new() -> Clock {
        Clock { start: instant_now() }
    }

    /// The nanoseconds that have passed since the clock was made.
    pub fn now(&self) -> u128 {
        nanos_since(&self.start)
    }
}

/// The time from one reading of the clock to a later one, and zero to an earlier one.
pub open spec fn time_between(earlier: int, later: int) -> int {
    if later > earlier {
        later - earlier
    } else {
        0
    }
}

/// The nanoseconds from one time of day to a later one, and zero to an earlier one.
pub fn nanos_between(earlier: i128, later: i128) -> (r: u128)
    ensures
        r == time_between(earlier as int, later as int),
{
    if later <= earlier {
        0
    } else if earlier >= 0 || later < 0 {
        (later - earlier) as u128
    } else {
        (later as u128) + ((-(earlier + 1)) as u128) + 1
    }
}

} // verus!
