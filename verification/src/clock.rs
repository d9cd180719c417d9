//! Time as the library sees it: a count of nanoseconds on the system clock.
//!
//! Every point in time and every time span is a `u64` number of nanoseconds.
//! Reading the clock is the one thing here that depends on the machine; the
//! verified functions that need the current time take it as an argument
//! (their names end in `_at`), and the functions that read the clock hand the
//! reading to them.
use vstd::prelude::*;

verus! {

/// `a + b`, or `u64::MAX` where the sum does not fit: the point in time that
/// lies `b` nanoseconds after `a`, with the far future standing for "never".
pub open spec fn sat_add(a: u64, b: u64) -> u64 {
    if a + b > u64::MAX {
        u64::MAX
    } else {
        (a + b) as u64
    }
}

/// `a - b`, or zero where `b` is not smaller than `a`: the time span from `b`
/// to `a`, which is empty when `a` is not later than `b`.
pub open spec fn sat_sub(a: u64, b: u64) -> u64 {
    if a >= b {
        (a - b) as u64
    } else {
        0
    }
}

/// Computes `sat_add(a, b)`.
pub fn add_nanos(a: u64, b: u64) -> (r: u64)
    ensures
        r == sat_add(a, b),
{
    a.saturating_add(b)
}

/// Computes `sat_sub(a, b)`.
pub fn span_nanos(a: u64, b: u64) -> (r: u64)
    ensures
        r == sat_sub(a, b),
{
    if a >= b {
        a - b
    } else {
        0
    }
}

/// Reads the system clock: `std::time::SystemTime::now()`, taken as the time
/// since `std::time::UNIX_EPOCH` in nanoseconds. A clock set before the epoch
/// reads as zero. Nothing is promised of the reading: it depends on the
/// machine and on the moment of the call.
#[verifier::external_body]
fn system_clock_nanos() -> u128 {
    match std::time::SystemTime::now().duration_since(std::time::UNIX_EPOCH) {
        Ok(d) => d.as_nanos(),
        Err(_) => 0,
    }
}

/// The current time in nanoseconds; a reading beyond `u64::MAX` (after the
/// year 2554) is held at `u64::MAX`.
pub fn now_nanos() -> (r: u64) {
    let t = system_clock_nanos();
    if t > 0xffff_ffff_ffff_ffffu128 {
        u64::MAX
    } else {
        t as u64
    }
}

} // verus!
