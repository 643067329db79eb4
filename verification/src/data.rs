//! Helpers for the charts: window sizes and axis labels.

use vstd::prelude::*;
use vstd::string::StringExecFns;

verus! {

/// The earliest Unix timestamp that has a calendar date: the first second
/// of the year -9999.
pub const MIN_TIMESTAMP: i64 = -377_705_116_800;

/// The latest Unix timestamp that has a calendar date: the last second of
/// the year 9999.
pub const MAX_TIMESTAMP: i64 = 253_402_300_799;

/// Whether a Unix timestamp has a calendar date.
pub open spec fn has_date(timestamp: i64) -> bool {
    MIN_TIMESTAMP <= timestamp <= MAX_TIMESTAMP
}

/// The day of the year, counted from 1, on which a Unix timestamp lies in
/// UTC in the proleptic Gregorian calendar.
pub uninterp spec fn ordinal_day(timestamp: int) -> int;

/// Calls `time::OffsetDateTime::from_unix_timestamp` and, on the date and
/// time it returns, `ordinal`. The first fails exactly for timestamps
/// outside the years -9999 to 9999, which is the range of the `time` crate
/// as this library builds it, without its `large-dates` feature. The second
/// returns the day of the year, which the crate documents to lie in
/// `1..=366`.
#[verifier::external_body]
fn utc_ordinal(timestamp: i64) -> (day: Option<u16>)
    ensures
        day is Some <==> has_date(timestamp),
        day matches Some(d) ==> d == ordinal_day(timestamp as int) && 1 <= d <= 366,
{
    match time::OffsetDateTime::from_unix_timestamp(timestamp) {
        Ok(moment) => Some(moment.ordinal()),
        Err(_) => None,
    }
}

/// The text of one decimal digit.
pub open spec fn digit_text(digit: nat) -> Seq<char> {
    if digit == 0 {
        "0"@
    } else if digit == 1 {
        "1"@
    } else if digit == 2 {
        "2"@
    } else if digit == 3 {
        "3"@
    } else if digit == 4 {
        "4"@
    } else if digit == 5 {
        "5"@
    } else if digit == 6 {
        "6"@
    } else if digit == 7 {
        "7"@
    } else if digit == 8 {
        "8"@
    } else {
        "9"@
    }
}

/// A number in decimal, without sign or leading zeros.
pub open spec fn decimal(n: nat) -> Seq<char>
    decreases n,
{
    if n < 10 {
        digit_text(n)
    } else {
        decimal(n / 10) + digit_text(n % 10)
    }
}

/// The text of one decimal digit.
fn digit_str(digit: u16) -> (text: &'static str)
    requires
        digit < 10,
    ensures
        text@ == digit_text(digit as nat),
{
    if digit == 0 {
        "0"
    } else if digit == 1 {
        "1"
    } else if digit == 2 {
        "2"
    } else if digit == 3 {
        "3"
    } else if digit == 4 {
        "4"
    } else if digit == 5 {
        "5"
    } else if digit == 6 {
        "6"
    } else if digit == 7 {
        "7"
    } else if digit == 8 {
        "8"
    } else {
        "9"
    }
}

/// Writes a day of the year in decimal, as a chart shows it on its time
/// axis.
pub fn day_label(day: u16) -> (label: String)
    ensures
        label@ == decimal(day as nat),
    decreases day,
{
    if day < 10 {
        String::from_str(digit_str(day))
    } else {
        let mut label = day_label(day / 10);
        label.append(digit_str(day % 10));
        label
    }
}

/// Tells on which day of its year a Unix timestamp lies in UTC, or `None`
/// for a timestamp without a calendar date.
pub fn day_of_year(timestamp: i64) -> (day: Option<u16>)
    ensures
        day is Some <==> has_date(timestamp),
        day matches Some(d) ==> d == ordinal_day(timestamp as int) && 1 <= d <= 366,
{
    utc_ordinal(timestamp)
}

/// Labels a step of a chart's time axis with the day of the year on which
/// the timestamp lies.
pub fn timestamp_fmt(timestamp: i64) -> (label: String)
    requires
        has_date(timestamp),
    ensures
        label@ == decimal(ordinal_day(timestamp as int) as nat),
{
    match utc_ordinal(timestamp) {
        Some(day) => day_label(day),
        None => vstd::pervasive::unreached(),
    }
}

/// The window that a moving average over `len` entries uses when `window`
/// was asked for. A window above 2 that would leave fewer than five windows'
/// worth of entries shrinks to a fifth of the entries, and to 1 at least;
/// any other window is used as asked.
pub open spec fn spec_effective_window(len: nat, window: nat) -> nat {
    if len < 5 * window && window > 2 {
        if len / 5 >= 1 {
            len / 5
        } else {
            1
        }
    } else {
        window
    }
}

/// Chooses the window of a moving average over `len` entries.
pub fn effective_window(len: usize, window: usize) -> (used: usize)
    ensures
        used == spec_effective_window(len as nat, window as nat),
        window > 0 ==> used > 0,
        used <= window,
{
    if len / 5 < window && window > 2 {
        if len / 5 >= 1 {
            len / 5
        } else {
            1
        }
    } else {
        window
    }
}

} // verus!
