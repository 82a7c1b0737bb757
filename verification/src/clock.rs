//! Readings of a monotonic clock.
//!
//! Every decision of the library that depends on time takes the current
//! reading as an argument, in whole nanoseconds since the clock was started,
//! so that what it decides is a function of its arguments. The readings of
//! one clock never go back.

use std::time::Duration;
use std::time::Instant;
use vstd::prelude::*;

verus! {

/// The number of nanoseconds in one second.
pub const NANOS_PER_SEC: u128 = 1_000_000_000;

/// Whole seconds between the reading `since` and the later reading `now`;
/// zero where `now` is not later.
pub open spec fn elapsed_secs(since: u128, now: u128) -> nat {
    if now >= since {
        ((now - since) / (NANOS_PER_SEC as int)) as nat
    } else {
        0
    }
}

/// Whether at least `secs` whole seconds lie between `since` and `now`.
pub fn has_elapsed(since: u128, now: u128, secs: u64) -> (yes: bool)
    ensures
        yes == (elapsed_secs(since, now) >= secs),
{
    if now >= since {
        (now - since) / NANOS_PER_SEC >= secs as u128
    } else {
        secs == 0
    }
}

/// `std::time::Instant`, a moment of the monotonic clock; nothing is read
/// of it but through the calls below.
#[verifier::external_type_specification]
#[verifier::external_body]
pub struct ExInstant(Instant);

/// `std::time::Instant::now`: some instant of the monotonic clock.
#[verifier::external_body]
fn instant_now() -> Instant {
    Instant::now()
}

/// `std::time::Instant::elapsed`: the time that has passed since `start`,
/// which differs from call to call.
#[verifier::external_body]
fn instant_elapsed(start: &Instant) -> Duration {
    start.elapsed()
}

/// `std::time::Duration::as_nanos`: the duration in whole nanoseconds.
#[verifier::external_body]
fn duration_as_nanos(d: &Duration) -> u128 {
    d.as_nanos()
}

/// A monotonic clock that counts from the moment it was started, and
/// remembers the last reading it gave so that no reading falls behind one
/// given before.
pub struct Clock {
    origin: Instant,
    last: u128,
}

impl Clock {
    /// The last reading that the clock gave: zero before the first.
    pub closed spec fn last_reading(&self) -> u128 {
        self.last
    }

    /// Starts a clock. It has given no reading yet.
    pub fn start() -> (clock: Clock)
        ensures
            clock.last_reading() == 0,
    {
        Clock { origin: instant_now(), last: 0 }
    }

    /// The current reading: nanoseconds since the clock was started, and
    /// never less than the reading before. Where the time that the system
    /// tells has fallen back, the reading before is given again.
    pub fn now(&mut self) -> (reading: u128)
        ensures
            reading >= old(self).last_reading(),
            final(self).last_reading() == reading,
    {
        let d = instant_elapsed(&self.origin);
        let told = duration_as_nanos(&d);
        if told > self.last {
            self.last = told;
        }
        self.last
    }
}

} // verus!
