//! Readings of the clocks, behind trusted declarations.
//!
//! The dispatcher measures how long a command takes and samples the wall
//! clock for the time command. Both readings depend on the machine's
//! clocks, so their contracts promise only what holds of every reading.

use vstd::prelude::*;

verus! {

/// `std::time::Instant`, declared so a reading of the monotonic clock can
/// be held and passed; the verifier sees nothing inside one.
#[verifier::external_type_specification]
#[verifier::external_body]
pub struct ExInstant(std::time::Instant);

/// Relies on `std::time::Instant::now`: a reading of the monotonic clock.
/// The value depends on the clock, so nothing is promised of it.
#[verifier::external_body]
pub(crate) fn instant_now() -> std::time::Instant {
    std::time::Instant::now()
}

/// Relies on `std::time::Instant::elapsed`, with `Duration::as_micros`
/// converting its result: the microseconds since `start` as the monotonic
/// clock reports them. The value depends on the clock, so nothing is
/// promised of it.
#[verifier::external_body]
pub(crate) fn instant_elapsed_micros(start: &std::time::Instant) -> u128 {
    start.elapsed().as_micros()
}

/// Relies on `chrono::DateTime::to_rfc3339_opts` with seconds precision
/// and the `Z` suffix, applied to `chrono::Utc::now`: the current UTC wall
/// time as an RFC 3339 string such as `2018-01-26T18:30:09Z` — at least 20
/// characters, the last one `'Z'`. `Utc::now` panics only where the system
/// clock reads before the Unix epoch.
#[verifier::external_body]
pub(crate) fn utc_now_rfc3339_secs() -> (s: String)
    ensures
        s@.len() >= 20,
        s@[s@.len() - 1] == 'Z',
{
    chrono::Utc::now().to_rfc3339_opts(chrono::SecondsFormat::Secs, true)
}

/// The microseconds since `start`, saturated to 64 bits.
pub(crate) fn elapsed_micros(start: &std::time::Instant) -> u64 {
    let us = instant_elapsed_micros(start);
    if us > u64::MAX as u128 {
        u64::MAX
    } else {
        us as u64
    }
}

} // verus!
