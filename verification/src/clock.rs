//! The clocks of the machine: a monotonic one that ages buckets, and the wall
//! clock that stamps audit events.

use std::time::{Instant, SystemTime};
use vstd::prelude::*;

verus! {

/// `std::time::Instant`, of which nothing is known.
#[verifier::external_type_specification]
#[verifier::external_body]
pub struct ExInstant(std::time::Instant);

/// `Instant::now`: a reading of the monotonic clock. Nothing is claimed of it.
pub assume_specification[ std::time::Instant::now ]() -> Instant;

/// `Instant::elapsed`, in nanoseconds: how far the monotonic clock has moved on
/// since `origin`. The reading depends on the machine, so nothing is claimed of
/// it; it wraps around after some five hundred years.
#[verifier::external_body]
pub(crate) fn nanos_since(origin: &Instant) -> u64 {
    origin.elapsed().as_nanos() as u64
}

/// Whether `reading` is one that the monotonic clock gives for `origin`: what
/// [`nanos_since`] returns for it, and nothing else.
pub closed spec fn is_clock_reading(origin: Instant, reading: u64) -> bool {
    call_ensures(nanos_since, (&origin,), reading)
}

/// Reads the monotonic clock.
pub(crate) fn read_clock(origin: &Instant) -> (reading: u64)
    ensures
        is_clock_reading(*origin, reading),
{
    let clock = nanos_since;
    clock(origin)
}

/// `SystemTime::elapsed` on the Unix epoch: whole seconds and whole
/// milliseconds beyond them by the wall clock, or nothing where that clock
/// stands before the epoch. Of the reading only that the milliseconds are short
/// of a second is claimed.
#[verifier::external_body]
pub(crate) fn unix_time() -> (reading: Option<(u64, u32)>)
    ensures
        reading is Some ==> reading->Some_0.1 < 1000,
{
    match SystemTime::UNIX_EPOCH.elapsed() {
        Ok(elapsed) => Some((elapsed.as_secs(), elapsed.subsec_millis())),
        Err(_) => None,
    }
}

/// Whether `reading` is one that the wall clock gives: what [`unix_time`] returns,
/// and nothing else.
pub closed spec fn is_wall_clock_reading(reading: Option<(u64, u32)>) -> bool {
    call_ensures(unix_time, (), reading)
}

/// Reads the wall clock.
pub(crate) fn read_wall_clock() -> (reading: Option<(u64, u32)>)
    ensures
        is_wall_clock_reading(reading),
        reading is Some ==> reading->Some_0.1 < 1000,
{
    let clock = unix_time;
    clock()
}

/// A reading of a clock is nothing but what the call that reads the clock returned.
pub(crate) proof fn law_readings_come_from_the_clocks(
    origin: Instant,
    reading: u64,
    wall: Option<(u64, u32)>,
)
    ensures
        is_clock_reading(origin, reading) ==> call_ensures(nanos_since, (&origin,), reading),
        is_wall_clock_reading(wall) ==> call_ensures(unix_time, (), wall),
{
}

} // verus!
