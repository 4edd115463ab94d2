//! Rendering of the block header timestamp as calendar date and time of
//! day, in UTC.
use vstd::prelude::*;
use crate::hexfmt::hex_digit_char;
use chrono::TimeZone;

verus! {

/// A value below 100 as two zero-padded decimal digits.
pub open spec fn two_digits(n: nat) -> Seq<char> {
    seq![hex_digit_char(n / 10), hex_digit_char(n % 10)]
}

/// The time of day of a unix timestamp, rendered `HH:MM:SS` in UTC.
pub open spec fn utc_time_text(ts: u32) -> Seq<char> {
    let sod = ts as nat % 86400;
    two_digits(sod / 3600) + seq![':'] + two_digits((sod % 3600) / 60) + seq![':']
        + two_digits(sod % 60)
}

/// The calendar date (Gregorian, UTC) of a unix timestamp, rendered
/// `YYYY-MM-DD`. The date depends on the timestamp alone.
pub uninterp spec fn utc_date_text(ts: u32) -> Seq<char>;

/// Relies on chrono: `Utc.timestamp_opt(ts, 0)` is single-valued for every
/// 32-bit timestamp, and `%H:%M:%S` renders the time of day as two-digit
/// zero-padded hours, minutes and seconds of `ts` modulo one day.
#[verifier::external_body]
pub(crate) fn format_utc_time(ts: u32) -> (r: String)
    ensures
        r@ == utc_time_text(ts),
{
    let dt = chrono::Utc.timestamp_opt(ts as i64, 0).unwrap();
    format!("{}", dt.format("%H:%M:%S"))
}

/// Relies on chrono: `%Y-%m-%d` renders the Gregorian calendar date of the
/// timestamp in UTC, a function of the timestamp alone.
#[verifier::external_body]
pub(crate) fn format_utc_date(ts: u32) -> (r: String)
    ensures
        r@ == utc_date_text(ts),
{
    let dt = chrono::Utc.timestamp_opt(ts as i64, 0).unwrap();
    format!("{}", dt.format("%Y-%m-%d"))
}

} // verus!
