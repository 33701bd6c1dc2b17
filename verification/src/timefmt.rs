//! Date-time reading and rendering. The date library's computations are
//! named, not restated: a date string parses to some seconds-since-epoch
//! value that is a function of the text and format alone, and a timestamp
//! renders to some text that is a function of the timestamp alone.

use vstd::prelude::*;
use chrono::TimeZone;

verus! {

/// Seconds since the epoch read from `s` under format `fmt`, or `None` when
/// `s` does not parse; a function of the two strings alone.
pub uninterp spec fn chrono_parse_secs(s: Seq<char>, fmt: Seq<char>) -> Option<i64>;

/// The date-time text format used by canonical feed items.
pub open spec fn item_date_fmt() -> Seq<char> {
    "%a, %d %h %Y %H:%M:%S %z"@
}

/// Text of `ts` seconds since the epoch rendered in the canonical item
/// date-time format, or `None` when `ts` lies outside the representable
/// range; a function of `ts` alone.
pub uninterp spec fn chrono_format_secs(ts: i64) -> Option<Seq<char>>;

/// Relies on `chrono::NaiveDateTime::parse_from_str`, `and_utc` and
/// `DateTime::timestamp`: parsing returns a result, never panics, and on
/// success the timestamp is determined by the input text and the format.
#[verifier::external_body]
pub fn parse_datetime_secs(s: &str, fmt: &str) -> (r: Option<i64>)
    ensures
        r == chrono_parse_secs(s@, fmt@),
{
    match chrono::NaiveDateTime::parse_from_str(s, fmt) {
        Ok(dt) => Some(dt.and_utc().timestamp()),
        Err(_) => None,
    }
}

/// Relies on `chrono::Utc::timestamp_opt` and `DateTime::format`: a
/// timestamp mapped to a single UTC date-time renders deterministically, and
/// the canonical format holds only specifiers supported for UTC date-times,
/// so rendering cannot fail or panic.
#[verifier::external_body]
pub fn format_datetime_secs(ts: i64, fmt: &str) -> (r: Option<String>)
    requires
        fmt@ == item_date_fmt(),
    ensures
        r.deep_view() == chrono_format_secs(ts),
{
    match chrono::Utc.timestamp_opt(ts, 0) {
        chrono::LocalResult::Single(dt) => Some(dt.format(fmt).to_string()),
        _ => None,
    }
}

/// Seconds since the epoch read from an optional date string.
pub open spec fn timestamp_of(s: Option<Seq<char>>, fmt: Seq<char>) -> Option<i64> {
    match s {
        Some(d) => chrono_parse_secs(d, fmt),
        None => None,
    }
}

/// Reads an optional date string as seconds since the epoch under `fmt`.
pub fn get_timestamp_from_string(string: Option<String>, fmt_string: &str) -> (r: Option<i64>)
    ensures
        r == timestamp_of(string.deep_view(), fmt_string@),
{
    match string {
        Some(d) => parse_datetime_secs(d.as_str(), fmt_string),
        None => None,
    }
}

} // verus!
