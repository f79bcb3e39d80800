//! The wall clock.

use std::time::{SystemTime, UNIX_EPOCH};
use vstd::prelude::*;

verus! {

/// `SystemTime::now`, as the seconds and the nanoseconds of the running second since the Unix
/// epoch; nothing where the clock stands before it. What the clock shows is left open.
#[verifier::external_body]
fn since_epoch() -> (r: Option<(u64, u32)>)
    ensures
        r matches Some(p) ==> p.1 < 1_000_000_000,
{
    SystemTime::now().duration_since(UNIX_EPOCH).ok().map(|d| (d.as_secs(), d.subsec_nanos()))
}

/// The seconds since the Unix epoch, or zero where the clock stands before it.
/// What the clock shows is left open.
pub fn now_secs() -> u64 {
    shown_secs(since_epoch())
}

/// The milliseconds of a point in time, counted modulo the range of the result.
pub open spec fn millis_of(secs: u64, nanos: u32) -> nat {
    ((secs * 1000 + nanos / 1_000_000) % 0x1_0000_0000_0000_0000) as nat
}

pub fn millis(secs: u64, nanos: u32) -> (r: u64)
    requires
        nanos < 1_000_000_000,
    ensures
        r == millis_of(secs, nanos),
{
    let total: u128 = secs as u128 * 1000 + (nanos / 1_000_000) as u128;
    (total % 0x1_0000_0000_0000_0000u128) as u64
}

/// The milliseconds since the Unix epoch, or zero where the clock stands before it.
/// What the clock shows is left open.
pub fn now_ms() -> u64 {
    shown_ms(since_epoch())
}

/// The nanoseconds since the Unix epoch, or zero where the clock stands before it. What the clock
/// shows is left open.
pub fn now_nanos() -> (r: u128)
    ensures
        r < 0x1_0000_0000_0000_0000u128 * 1_000_000_000,
{
    shown_nanos(since_epoch())
}

/// Whether a reading of the clock, in seconds and the nanoseconds of the running second, is one:
/// there are less than a second of nanoseconds.
pub open spec fn is_reading(reading: Option<(u64, u32)>) -> bool {
    reading matches Some(p) ==> p.1 < 1_000_000_000
}

/// The seconds of a reading.
pub open spec fn secs_shown(reading: Option<(u64, u32)>) -> nat {
    match reading {
        Some(p) => p.0 as nat,
        None => 0,
    }
}

/// The milliseconds of a reading.
pub open spec fn ms_shown(reading: Option<(u64, u32)>) -> nat {
    match reading {
        Some(p) => millis_of(p.0, p.1),
        None => 0,
    }
}

/// The nanoseconds of a reading.
pub open spec fn nanos_shown(reading: Option<(u64, u32)>) -> nat {
    match reading {
        Some(p) => (p.0 * 1_000_000_000 + p.1) as nat,
        None => 0,
    }
}

/// The seconds of a reading, or zero where there is none.
pub fn shown_secs(reading: Option<(u64, u32)>) -> (r: u64)
    ensures
        r == secs_shown(reading),
{
    match reading {
        Some((secs, _)) => secs,
        None => 0,
    }
}

/// The milliseconds of a reading, or zero where there is none.
pub fn shown_ms(reading: Option<(u64, u32)>) -> (r: u64)
    requires
        is_reading(reading),
    ensures
        r == ms_shown(reading),
{
    match reading {
        Some((secs, nanos)) => millis(secs, nanos),
        None => 0,
    }
}

/// The nanoseconds of a reading, or zero where there is none.
pub fn shown_nanos(reading: Option<(u64, u32)>) -> (r: u128)
    requires
        is_reading(reading),
    ensures
        r == nanos_shown(reading),
{
    match reading {
        Some((secs, nanos)) => secs as u128 * 1_000_000_000 + nanos as u128,
        None => 0,
    }
}

// ---------------------------------------------------------------------------
// Laws
// ---------------------------------------------------------------------------

/// The three ways to read the clock tell one time: a thousand milliseconds to the second, a million
/// nanoseconds to the millisecond, as far as the milliseconds fit.
pub proof fn lemma_one_time(reading: Option<(u64, u32)>)
    requires
        is_reading(reading),
        secs_shown(reading) < 0x10_0000_0000_0000,
    ensures
        ms_shown(reading) / 1000 == secs_shown(reading),
        nanos_shown(reading) / 1_000_000 == ms_shown(reading),
        nanos_shown(reading) / 1_000_000_000 == secs_shown(reading),
        reading is None ==> nanos_shown(reading) == 0,
{
    if let Some((s, n)) = reading {
        assert((s * 1000 + n / 1_000_000) < 0x1_0000_0000_0000_0000);
    }
}

} // verus!
