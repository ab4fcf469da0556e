//! Coarse, format-native time stamps: civil time obtained through trusted
//! clock/calendar wrappers, and its verified encoding into the container's
//! two 16-bit fields.

use vstd::prelude::*;

use chrono::{Datelike, Timelike};

verus! {

/// The civil form of a Unix timestamp in UTC: year, month, day, hour,
/// minute, second -- a function of the timestamp alone; nothing for
/// timestamps outside the calendar's range.
pub uninterp spec fn spec_civil_of(secs: i64) -> Option<(i32, u8, u8, u8, u8, u8)>;

/// Relies on chrono::DateTime::from_timestamp and the Datelike/Timelike
/// accessors: the civil UTC fields of a timestamp, a pure function of the
/// timestamp, with month 1-12, day 1-31, hour below 24, minute and second
/// below 60 as the accessors document.
#[verifier::external_body]
fn civil_from_unix(secs: i64) -> (r: Option<(i32, u8, u8, u8, u8, u8)>)
    ensures
        r == spec_civil_of(secs),
        r matches Some(c) ==> 1 <= c.1 <= 12 && 1 <= c.2 <= 31 && c.3 < 24 && c.4 < 60 && c.5
            < 60,
{
    let dt = chrono::DateTime::from_timestamp(secs, 0)?;
    Some((
        dt.year(),
        dt.month() as u8,
        dt.day() as u8,
        dt.hour() as u8,
        dt.minute() as u8,
        dt.second() as u8,
    ))
}

/// The time field: hours, minutes and two-second steps packed into 16 bits.
pub open spec fn spec_dos_time(h: u8, m: u8, s: u8) -> u16
    recommends
        h < 24,
        m < 60,
        s < 60,
{
    (h * 2048 + m * 32 + s / 2) as u16
}

/// The date field: years since 1980, month and day packed into 16 bits.
pub open spec fn spec_dos_date(y: i32, mo: u8, d: u8) -> u16
    recommends
        1980 <= y <= 2107,
        1 <= mo <= 12,
        1 <= d <= 31,
{
    ((y - 1980) * 512 + mo * 32 + d) as u16
}

/// Civil time packed into the two format fields, with years outside the
/// format's 1980-2107 window clamped to its nearest representable moment.
pub open spec fn spec_dos_pair(c: (i32, u8, u8, u8, u8, u8)) -> (u16, u16) {
    if c.0 < 1980 {
        (0, spec_dos_date(1980, 1, 1))
    } else if c.0 > 2107 {
        (spec_dos_time(23, 59, 58), spec_dos_date(2107, 12, 31))
    } else {
        (spec_dos_time(c.3, c.4, c.5), spec_dos_date(c.0, c.1, c.2))
    }
}

/// Packs civil time into the two format fields, clamping out-of-window
/// years.
pub fn dos_datetime(year: i32, month: u8, day: u8, hour: u8, minute: u8, second: u8) -> (r: (
    u16,
    u16,
))
    requires
        1 <= month <= 12,
        1 <= day <= 31,
        hour < 24,
        minute < 60,
        second < 60,
    ensures
        r == spec_dos_pair((year, month, day, hour, minute, second)),
{
    if year < 1980 {
        (0, 33)
    } else if year > 2107 {
        (
            23 * 2048 + 59 * 32 + 29,
            127 * 512 + 12 * 32 + 31,
        )
    } else {
        let t: u16 = (hour as u16) * 2048 + (minute as u16) * 32 + (second as u16) / 2;
        let d: u16 = ((year - 1980) as u16) * 512 + (month as u16) * 32 + (day as u16);
        (t, d)
    }
}

/// The format-native stamp of a file's modification time: the civil UTC
/// form of the timestamp packed into the two fields, the format's zero
/// stamp when the timestamp has no civil form.
pub fn get_modification_time(unix_secs: i64) -> (r: (u16, u16))
    ensures
        r == match spec_civil_of(unix_secs) {
            Some(c) => spec_dos_pair(c),
            None => (0u16, 0u16),
        },
{
    match civil_from_unix(unix_secs) {
        Some(c) => dos_datetime(c.0, c.1, c.2, c.3, c.4, c.5),
        None => (0, 0),
    }
}

} // verus!
