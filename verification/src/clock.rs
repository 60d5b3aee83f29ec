//! The two clocks of the server: one that counts from its start, for what
//! expires and for what is done every so often, and the calendar, for leases.

use vstd::prelude::*;
use std::time::{Instant, SystemTime};

verus! {

/// The nanoseconds in a second.
pub const NANOS_PER_SEC: u64 = 1_000_000_000;

/// `std::time::Instant`, a moment of the monotonic clock. It is carried, never
/// looked into.
#[verifier::external_type_specification]
#[verifier::external_body]
pub struct ExInstant(Instant);

/// `std::time::SystemTime`, a moment of the calendar. It is carried, never
/// looked into.
#[verifier::external_type_specification]
#[verifier::external_body]
pub struct ExSystemTime(SystemTime);

/// `Instant::now` reads the monotonic clock. Nothing is claimed of the moment:
/// it depends on when the call is made.
pub assume_specification[ Instant::now ]() -> (r: Instant)
;

/// `SystemTime::now` reads the calendar. Nothing is claimed of the moment: it
/// depends on when the call is made.
pub assume_specification[ SystemTime::now ]() -> (r: SystemTime)
;

/// `Instant::elapsed`, in nanoseconds: the time since the moment. Nothing is
/// claimed of the number: it depends on when the call is made.
#[verifier::external_body]
fn elapsed_nanos(moment: &Instant) -> (r: u128) {
    moment.elapsed().as_nanos()
}

/// `SystemTime::duration_since` with the Unix epoch, in whole seconds: the time
/// from the epoch to the moment, or nothing where the moment is earlier. Nothing
/// is claimed of the number: the moment is one that a clock gave.
#[verifier::external_body]
fn secs_since_epoch(moment: &SystemTime) -> (r: Option<u64>) {
    match moment.duration_since(SystemTime::UNIX_EPOCH) {
        Ok(span) => Some(span.as_secs()),
        Err(_) => None,
    }
}

/// What a clock shows after so many nanoseconds: their number, up to the largest
/// that it can show.
pub fn reading_of(nanos: u128) -> (r: u64)
    ensures
        nanos <= u64::MAX ==> r == nanos,
        nanos > u64::MAX ==> r == u64::MAX,
{
    if nanos < 0xffff_ffff_ffff_ffff {
        nanos as u64
    } else {
        0xffff_ffff_ffff_ffff
    }
}

/// The seconds of a moment that lies so many after the Unix epoch, or before it:
/// then they are 0.
pub fn seconds_of(since_epoch: Option<u64>) -> (r: u64)
    ensures
        since_epoch matches Some(secs) ==> r == secs,
        since_epoch is None ==> r == 0,
{
    match since_epoch {
        Some(secs) => secs,
        None => 0,
    }
}

/// A clock that counts the nanoseconds since it was made.
pub struct Clock {
    start: Instant,
}

impl Clock {
    /// A clock that starts now.
    pub fn new() -> Self {
        Clock { start: Instant::now() }
    }

    /// The nanoseconds since the clock was made. The count stops at the largest
    /// number, which it reaches after five centuries.
    ///
    /// What the number is, is not stated: it depends on when the call is made.
    /// [`reading_of`] says what is made of the time that has passed.
    pub fn now(&self) -> u64 {
        reading_of(elapsed_nanos(&self.start))
    }
}

/// The seconds since the Unix epoch; 0 where the calendar is set before it.
///
/// What the number is, is not stated: it depends on when the call is made.
/// [`seconds_of`] says what is made of the moment.
pub fn unix_now() -> u64 {
    seconds_of(secs_since_epoch(&SystemTime::now()))
}

} // verus!
