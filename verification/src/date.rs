//! Time stamps of the form `YYYY-MM-DDThh:mm:ssZ`, read as seconds since the
//! start of 1970 in UTC.

use crate::number::{all_digits, decimal_value, lemma_decimal_bound, parse_decimal, pow};
use crate::text::{COLON, DASH};
use vstd::prelude::*;
use vstd::slice::*;

verus! {

pub const LETTER_T: u8 = 0x54;

pub const LETTER_Z: u8 = 0x5a;

/// Leap years of the Gregorian calendar.
pub open spec fn is_leap_year(y: int) -> bool {
    y % 4 == 0 && (y % 100 != 0 || y % 400 == 0)
}

/// The number of days of month `m` (1 to 12) in year `y`.
pub open spec fn days_in_month(y: int, m: int) -> int {
    if m == 2 {
        if is_leap_year(y) {
            29
        } else {
            28
        }
    } else if m == 4 || m == 6 || m == 9 || m == 11 {
        30
    } else {
        31
    }
}

/// The number of days of year `y`.
pub open spec fn days_in_year(y: int) -> int {
    if is_leap_year(y) {
        366
    } else {
        365
    }
}

/// The number of days from the start of 1970 to the start of year `y`.
pub open spec fn days_before_year(y: int) -> int
    decreases y,
{
    if y <= 1970 {
        0
    } else {
        days_before_year(y - 1) + days_in_year(y - 1)
    }
}

/// The number of days from the start of year `y` to the start of its month
/// `m`.
pub open spec fn days_before_month(y: int, m: int) -> int
    decreases m,
{
    if m <= 1 {
        0
    } else {
        days_before_month(y, m - 1) + days_in_month(y, m - 1)
    }
}

/// The seconds from the start of 1970 to the given moment.
pub open spec fn unix_seconds(y: int, mo: int, d: int, h: int, mi: int, s: int) -> int {
    (days_before_year(y) + days_before_month(y, mo) + d - 1) * 86400 + h * 3600 + mi * 60 + s
}

/// The text has the length and the punctuation of a time stamp.
pub open spec fn well_punctuated(text: Seq<u8>) -> bool {
    &&& text.len() == 20
    &&& text[4] == DASH
    &&& text[7] == DASH
    &&& text[10] == LETTER_T
    &&& text[13] == COLON
    &&& text[16] == COLON
    &&& text[19] == LETTER_Z
}

/// The number written in `text[a..b]`, if that holds digits only.
pub open spec fn field(text: Seq<u8>, a: int, b: int) -> Option<int> {
    if all_digits(text.subrange(a, b)) {
        Some(decimal_value(text.subrange(a, b)) as int)
    } else {
        None
    }
}

/// The six numbers of a time stamp name a moment of the calendar, not
/// before 1970.
pub open spec fn is_moment(y: int, mo: int, d: int, h: int, mi: int, s: int) -> bool {
    &&& y >= 1970
    &&& 1 <= mo <= 12
    &&& 1 <= d <= days_in_month(y, mo)
    &&& 0 <= h <= 23
    &&& 0 <= mi <= 59
    &&& 0 <= s <= 59
}

/// The moment that a time stamp names, in seconds since the start of 1970.
pub open spec fn timestamp(text: Seq<u8>) -> Option<u64> {
    let y = field(text, 0, 4);
    let mo = field(text, 5, 7);
    let d = field(text, 8, 10);
    let h = field(text, 11, 13);
    let mi = field(text, 14, 16);
    let s = field(text, 17, 19);
    if well_punctuated(text) && y is Some && mo is Some && d is Some && h is Some && mi is Some
        && s is Some && is_moment(y->0, mo->0, d->0, h->0, mi->0, s->0) {
        Some(unix_seconds(y->0, mo->0, d->0, h->0, mi->0, s->0) as u64)
    } else {
        None
    }
}

/// The number of leap years from year 1 to the year before `y`.
pub open spec fn leap_years_before(y: int) -> int {
    (y - 1) / 4 - (y - 1) / 100 + (y - 1) / 400
}

/// The days before a year in closed form: 365 for each year since 1970 and
/// one more for each leap year among them.
pub proof fn lemma_days_before_year(y: int)
    requires
        y >= 1970,
    ensures
        days_before_year(y) == 365 * (y - 1970) + leap_years_before(y) - 477,
        days_before_year(y) >= 0,
    decreases y,
{
    if y > 1970 {
        lemma_days_before_year(y - 1);
    }
}

/// The days before a month never exceed the days of eleven long months.
pub proof fn lemma_days_before_month(y: int, m: int)
    requires
        1 <= m <= 12,
    ensures
        0 <= days_before_month(y, m) <= 31 * (m - 1),
    decreases m,
{
    if m > 1 {
        lemma_days_before_month(y, m - 1);
    }
}

/// A moment lies at or after the start of 1970, and one with a year of four
/// digits lies below 2^38 seconds after it.
pub proof fn lemma_unix_seconds_bound(y: int, mo: int, d: int, h: int, mi: int, s: int)
    requires
        is_moment(y, mo, d, h, mi, s),
        y <= 9999,
    ensures
        0 <= unix_seconds(y, mo, d, h, mi, s) < 0x40_0000_0000,
{
    lemma_days_before_year(y);
    lemma_days_before_month(y, mo);
}

/// Tells whether `y` is a leap year.
pub fn leap_year(y: u32) -> (r: bool)
    ensures
        r == is_leap_year(y as int),
{
    y % 4 == 0 && (y % 100 != 0 || y % 400 == 0)
}

/// The number of days of month `m` in year `y`.
pub fn month_length(y: u32, m: u32) -> (r: u32)
    ensures
        r == days_in_month(y as int, m as int),
{
    if m == 2 {
        if leap_year(y) {
            29
        } else {
            28
        }
    } else if m == 4 || m == 6 || m == 9 || m == 11 {
        30
    } else {
        31
    }
}

/// Reads the digits in `text[a..b]`.
fn read_field(text: &[u8], a: usize, b: usize) -> (r: Option<u32>)
    requires
        a < b <= text@.len(),
        b - a <= 4,
    ensures
        r is Some <==> field(text@, a as int, b as int) is Some,
        r matches Some(v) ==> field(text@, a as int, b as int) == Some(v as int) && v <= 9999,
{
    let r = parse_decimal(slice_subrange(text, a, b));
    proof {
        if r is Some {
            let s = text@.subrange(a as int, b as int);
            lemma_decimal_bound(s);
            reveal_with_fuel(pow, 5);
        }
    }
    r
}

/// Computes the seconds from the start of 1970 to the moment that six
/// numbers name, if they name one and the year has at most four digits.
pub fn seconds_since_epoch(y: u32, mo: u32, d: u32, h: u32, mi: u32, s: u32) -> (r: Option<u64>)
    ensures
        r is Some <==> y <= 9999 && is_moment(
            y as int,
            mo as int,
            d as int,
            h as int,
            mi as int,
            s as int,
        ),
        r matches Some(t) ==> t == unix_seconds(
            y as int,
            mo as int,
            d as int,
            h as int,
            mi as int,
            s as int,
        ),
{
    if y < 1970 || y > 9999 || mo < 1 || mo > 12 || d < 1 || d > month_length(y, mo) || h > 23 || mi
        > 59 || s > 59 {
        return None;
    }
    proof {
        lemma_days_before_year(y as int);
    }
    let before: u64 = (y - 1) as u64;
    let leaps: u64 = before / 4 - before / 100 + before / 400 - 477;
    let mut days: u64 = 365 * (y - 1970) as u64 + leaps;
    let mut m: u32 = 1;
    let ghost year_days = days;
    while m < mo
        invariant
            1 <= m <= mo <= 12,
            year_days == days_before_year(y as int),
            year_days <= 366 * 9999,
            days == year_days + days_before_month(y as int, m as int),
            days <= year_days + 31 * (m - 1),
        decreases mo - m,
    {
        days = days + month_length(y, m) as u64;
        m = m + 1;
    }
    Some((days + (d - 1) as u64) * 86400 + h as u64 * 3600 + mi as u64 * 60 + s as u64)
}

/// Reads a time stamp.
pub fn parse_timestamp(text: &[u8]) -> (r: Option<u64>)
    ensures
        r == timestamp(text@),
{
    if text.len() != 20 {
        return None;
    }
    if text[4] != DASH || text[7] != DASH || text[10] != LETTER_T || text[13] != COLON || text[16]
        != COLON || text[19] != LETTER_Z {
        return None;
    }
    let y = read_field(text, 0, 4);
    let mo = read_field(text, 5, 7);
    let d = read_field(text, 8, 10);
    let h = read_field(text, 11, 13);
    let mi = read_field(text, 14, 16);
    let s = read_field(text, 17, 19);
    match (y, mo, d, h, mi, s) {
        (Some(y), Some(mo), Some(d), Some(h), Some(mi), Some(s)) => {
            proof {
                if is_moment(y as int, mo as int, d as int, h as int, mi as int, s as int) {
                    lemma_unix_seconds_bound(
                        y as int,
                        mo as int,
                        d as int,
                        h as int,
                        mi as int,
                        s as int,
                    );
                }
            }
            seconds_since_epoch(y, mo, d, h, mi, s)
        },
        _ => None,
    }
}

} // verus!
