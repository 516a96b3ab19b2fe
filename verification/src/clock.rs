//! Timestamps in milliseconds.

use vstd::prelude::*;

verus! {

/// The milliseconds in a reading of the clock, taken modulo 2^64: a reading is the
/// whole seconds and the nanoseconds behind them since the Unix epoch, or `None`
/// for a clock set before it.
pub open spec fn reading_millis(reading: Option<(u64, u32)>) -> int {
    match reading {
        Some((secs, nanos)) => (secs * 1000 + nanos / 1_000_000) % 0x1_0000_0000_0000_0000,
        None => 0,
    }
}

/// The system clock, as seconds and nanoseconds since the Unix epoch.
///
/// Calls `std::time::SystemTime::elapsed` on `UNIX_EPOCH`, which fails where the clock
/// is set before the epoch. What the clock shows is left open; the nanoseconds are a
/// fraction of a second.
#[verifier::external_body]
fn since_epoch() -> (reading: Option<(u64, u32)>)
    ensures
        reading matches Some((_, nanos)) ==> nanos < 1_000_000_000,
{
    match std::time::UNIX_EPOCH.elapsed() {
        Ok(elapsed) => Some((elapsed.as_secs(), elapsed.subsec_nanos())),
        Err(_) => None,
    }
}

/// The system clock can have given `reading` when it was read.
pub closed spec fn clock_showed(reading: Option<(u64, u32)>) -> bool {
    call_ensures(since_epoch, (), reading)
}

/// The milliseconds in a reading of the clock.
pub fn millis_of(reading: Option<(u64, u32)>) -> (millis: u64)
    ensures
        millis == reading_millis(reading),
{
    match reading {
        Some((secs, nanos)) => {
            let whole: u128 = secs as u128 * 1000 + (nanos / 1_000_000) as u128;
            assert(whole as u64 == whole % 0x1_0000_0000_0000_0000) by (bit_vector);
            whole as u64
        },
        None => 0,
    }
}

/// Timestamp in milliseconds since the Unix epoch, 0 for a clock set before it.
pub fn now_millis() -> (now: u64)
    ensures
        exists|reading: Option<(u64, u32)>| #[trigger]
            clock_showed(reading) && now == reading_millis(reading),
{
    let reading = since_epoch();
    assert(clock_showed(reading));
    millis_of(reading)
}

/// What the clock showed is what reading it gave.
proof fn law_clock_showed(reading: Option<(u64, u32)>)
    ensures
        clock_showed(reading) <==> call_ensures(since_epoch, (), reading),
{
}

/// A reading is turned into its whole milliseconds, fractions cut off, as long as they fit
/// into 64 bits; each further second adds 1000, going round at 2^64.
pub proof fn law_reading_millis(secs: u64, nanos: u32)
    ensures
        0 <= reading_millis(Some((secs, nanos))) <= u64::MAX,
        secs * 1000 + 5000 <= u64::MAX ==> {
            let within = reading_millis(Some((secs, nanos))) - secs * 1000;
            within * 1_000_000 <= nanos < (within + 1) * 1_000_000
        },
        secs < u64::MAX ==> reading_millis(Some(((secs + 1) as u64, nanos))) == (reading_millis(
            Some((secs, nanos)),
        ) + 1000) % 0x1_0000_0000_0000_0000,
        reading_millis(None) == 0,
{
}

} // verus!
