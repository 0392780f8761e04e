//! Date-times of the form `YYYY-MM-DD HH:MM:SS` and the seconds since the
//! Unix epoch (1970-01-01 00:00:00 UTC) that they stand for, in the
//! proleptic Gregorian calendar.
use vstd::prelude::*;

use crate::numbers::{digit_value, is_ascii_digit};

verus! {

/// The value of the decimal digits `s`.
pub open spec fn digits_value(s: Seq<char>) -> int
    decreases s.len(),
{
    if s.len() == 0 {
        0
    } else {
        digits_value(s.drop_last()) * 10 + digit_value(s.last())
    }
}

/// Whether `t` has the exact shape `DDDD-DD-DD DD:DD:DD`, each `D` a
/// decimal digit.
pub open spec fn is_datetime_shape(t: Seq<char>) -> bool {
    &&& t.len() == 19
    &&& t[4] == '-' && t[7] == '-' && t[10] == ' ' && t[13] == ':' && t[16] == ':'
    &&& forall|i: int|
        0 <= i < 19 && i != 4 && i != 7 && i != 10 && i != 13 && i != 16 ==> is_ascii_digit(
            #[trigger] t[i],
        )
}

/// Whether `y` is a leap year.
pub open spec fn is_leap_year(y: int) -> bool {
    y % 4 == 0 && (y % 100 != 0 || y % 400 == 0)
}

/// The number of days of the month `m` (1 to 12) of the year `y`.
pub open spec fn days_in_month(y: int, m: int) -> int {
    if m == 2 {
        if is_leap_year(y) {
            29
        } else {
            28
        }
    } else if m == 4 || m == 6 || m == 9 || m == 11 {
        30
    } else {
        31
    }
}

/// The days of the year `y` before the first of the month `m`.
pub open spec fn days_before_month(y: int, m: int) -> int {
    let common: int = if m == 1 {
        0
    } else if m == 2 {
        31
    } else if m == 3 {
        59
    } else if m == 4 {
        90
    } else if m == 5 {
        120
    } else if m == 6 {
        151
    } else if m == 7 {
        181
    } else if m == 8 {
        212
    } else if m == 9 {
        243
    } else if m == 10 {
        273
    } else if m == 11 {
        304
    } else {
        334
    };
    if m > 2 && is_leap_year(y) {
        common + 1
    } else {
        common
    }
}

/// The days from 0000-01-01 to the first of January of the year `y`
/// (`y >= 0`).
pub open spec fn days_before_year(y: int) -> int {
    365 * y + (y + 3) / 4 - (y + 99) / 100 + (y + 399) / 400
}

/// The seconds from 1970-01-01 00:00:00 to the given date and time.
pub open spec fn civil_seconds(y: int, mo: int, d: int, h: int, mi: int, s: int) -> int {
    (days_before_year(y) + days_before_month(y, mo) + d - 1 - 719528) * 86400 + h * 3600 + mi
        * 60 + s
}

/// The seconds since the Unix epoch that the text `t` names, where it has
/// the shape `YYYY-MM-DD HH:MM:SS` and names a real date and a time of day
/// before 24:00:00 (seconds 00 to 59); `None` for any other text.
pub open spec fn datetime_seconds(t: Seq<char>) -> Option<int> {
    if !is_datetime_shape(t) {
        None
    } else {
        let y = digits_value(t.subrange(0, 4));
        let mo = digits_value(t.subrange(5, 7));
        let d = digits_value(t.subrange(8, 10));
        let h = digits_value(t.subrange(11, 13));
        let mi = digits_value(t.subrange(14, 16));
        let s = digits_value(t.subrange(17, 19));
        if 1 <= mo <= 12 && 1 <= d <= days_in_month(y, mo) && h < 24 && mi < 60 && s < 60 {
            Some(civil_seconds(y, mo, d, h, mi, s))
        } else {
            None
        }
    }
}

} // verus!
