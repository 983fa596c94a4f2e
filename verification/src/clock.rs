//! The two points where the decoder leans on the `time` crate: turning a
//! broken-down UTC time into epoch seconds, and reading the current year for
//! timestamps whose year is omitted on the wire.

use vstd::prelude::*;

verus! {

/// Seconds since the Unix epoch for a broken-down UTC time, exactly as the
/// `time` crate computes it. `tm_year` counts years since 1900 and `tm_mon`
/// counts months from 0; the result depends on the six fields alone.
pub uninterp spec fn epoch_of(
    tm_year: int,
    tm_mon: int,
    tm_mday: int,
    tm_hour: int,
    tm_min: int,
    tm_sec: int,
) -> int;

/// Relies on `time::Tm::to_utc` and `time::Tm::to_timespec` (time 0.1).
/// `time::empty_tm` zeroes every field including `tm_utcoff`; with a zero
/// offset `to_utc` returns the value unchanged and `to_timespec` is libc
/// `timegm`, pure calendar arithmetic over the six fields set below. It
/// normalizes out-of-range fields instead of failing, so the call is total
/// and deterministic.
#[verifier::external_body]
pub(crate) fn epoch_secs(
    tm_year: i32,
    tm_mon: i32,
    tm_mday: i32,
    tm_hour: i32,
    tm_min: i32,
    tm_sec: i32,
) -> (r: i64)
    ensures
        r == epoch_of(
            tm_year as int,
            tm_mon as int,
            tm_mday as int,
            tm_hour as int,
            tm_min as int,
            tm_sec as int,
        ),
{
    let mut tm = time::empty_tm();
    tm.tm_year = tm_year;
    tm.tm_mon = tm_mon;
    tm.tm_mday = tm_mday;
    tm.tm_hour = tm_hour;
    tm.tm_min = tm_min;
    tm.tm_sec = tm_sec;
    tm.to_utc().to_timespec().sec
}

/// Relies on `time::now` (time 0.1): the current local time, whose `tm_year`
/// field is the current year minus 1900. Nothing can be promised of a clock
/// reading, so this has no contract.
#[verifier::external_body]
pub(crate) fn current_tm_year() -> i32 {
    time::now().tm_year
}

} // verus!
