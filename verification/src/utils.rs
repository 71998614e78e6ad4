//! Windows file times: hundreds of nanoseconds since 1601, and their Unix
//! times.
use vstd::prelude::*;

verus! {

/// Seconds between 1601-01-01 and 1970-01-01.
pub const WINDOWS_FILETIME_EPOCH_DIFF: u64 = 11_644_473_600;

/// Hundreds of nanoseconds in a second.
pub const HUNDRED_NANOSECONDS: u64 = 10_000_000;

/// A file time whose whole seconds reach the Unix epoch (an earlier one
/// underflows).
pub open spec fn filetime_after_epoch(filetime: u64) -> bool {
    filetime / 10_000_000 >= 11_644_473_600
}

/// The Unix time, in whole seconds, of a file time.
pub fn filetime_to_epoch(filetime: u64) -> (r: i64)
    requires
        filetime_after_epoch(filetime),
    ensures
        r == filetime / 10_000_000 - 11_644_473_600,
{
    let secs = filetime / HUNDRED_NANOSECONDS - WINDOWS_FILETIME_EPOCH_DIFF;
    assert(secs <= u64::MAX / 10_000_000);
    secs as i64
}

/// A Unix time that a file time holds: not before the epoch, and not so
/// late that its hundreds of nanoseconds overflow 64 bits.
pub open spec fn filetime_representable(secs: i64) -> bool {
    0 <= secs && (secs + 11_644_473_600) * 10_000_000 <= u64::MAX
}

/// The file time of a Unix time given as seconds and nanoseconds.
pub fn datetime_to_filetime(secs: i64, subsec_nanos: u32) -> (r: u128)
    requires
        filetime_representable(secs),
    ensures
        r == (secs + 11_644_473_600) * 10_000_000 + subsec_nanos / 100,
{
    let timestamp = secs as u64;
    let seconds_since_windows_epoch = timestamp + WINDOWS_FILETIME_EPOCH_DIFF;
    let whole = (seconds_since_windows_epoch * HUNDRED_NANOSECONDS) as u128;
    let fractional = (subsec_nanos as u128) / 100;
    whole + fractional
}

/// The Unix time of the file time of a Unix time is its seconds.
pub proof fn lemma_filetime_roundtrip(secs: i64, subsec_nanos: u32)
    requires
        filetime_representable(secs),
        subsec_nanos < 1_000_000_000,
        (secs + 11_644_473_600) * 10_000_000 + subsec_nanos / 100 <= u64::MAX,
    ensures
        ({
            let ft = ((secs + 11_644_473_600) * 10_000_000 + subsec_nanos / 100) as u64;
            filetime_after_epoch(ft) && ft / 10_000_000 - 11_644_473_600 == secs
        }),
{
    let w = (secs + 11_644_473_600) as int;
    let f = (subsec_nanos / 100) as int;
    assert(0 <= f < 10_000_000);
    assert((w * 10_000_000 + f) / 10_000_000 == w) by (nonlinear_arith)
        requires
            0 <= f < 10_000_000,
            w >= 0,
    ;
}

} // verus!
