//! Calendar and clock conversions, relied on from the `chrono` crate.
//!
//! Timestamps are carried as milliseconds since the Unix epoch.  Every
//! instant that `chrono` can represent lies within about 262,000 years of
//! the common era, so every millisecond count produced here is bounded by
//! `TS_LIMIT_MS` in magnitude.

use vstd::prelude::*;
use chrono::{DateTime, NaiveDate, Utc};

verus! {

/// Largest timestamp magnitude, in milliseconds, that the library carries.
pub const TS_LIMIT_MS: i64 = 9_000_000_000_000_000;

/// Milliseconds since the Unix epoch denoted by an RFC 3339 byte string;
/// nothing when the bytes are not valid UTF-8 or not a valid timestamp.
pub uninterp spec fn rfc3339_millis(s: Seq<u8>) -> Option<i64>;

/// Milliseconds since the Unix epoch of a calendar date with a time of day;
/// nothing when the fields do not name a real instant.
pub uninterp spec fn civil_millis(
    year: i32,
    month: u32,
    day: u32,
    hour: u32,
    minute: u32,
    second: u32,
) -> Option<i64>;

/// Relies on chrono's `DateTime::parse_from_rfc3339` and `timestamp_millis`:
/// the result depends on the bytes alone, and chrono's calendar range keeps
/// it within `TS_LIMIT_MS` of the epoch.
#[verifier::external_body]
pub fn rfc3339_to_millis(s: &[u8]) -> (r: Option<i64>)
    ensures
        r == rfc3339_millis(s@),
        r matches Some(ms) ==> -TS_LIMIT_MS <= ms <= TS_LIMIT_MS,
{
    match std::str::from_utf8(s) {
        Ok(text) => match DateTime::parse_from_rfc3339(text) {
            Ok(dt) => Some(dt.timestamp_millis()),
            Err(_) => None,
        },
        Err(_) => None,
    }
}

/// Relies on chrono's `NaiveDate::from_ymd_opt`, `NaiveDate::and_hms_opt`
/// and `timestamp_millis`: the result depends on the fields alone, is
/// nothing exactly when chrono rejects the date or time of day, and chrono's
/// calendar range keeps it within `TS_LIMIT_MS` of the epoch.
#[verifier::external_body]
pub fn civil_to_millis(
    year: i32,
    month: u32,
    day: u32,
    hour: u32,
    minute: u32,
    second: u32,
) -> (r: Option<i64>)
    ensures
        r == civil_millis(year, month, day, hour, minute, second),
        r matches Some(ms) ==> -TS_LIMIT_MS <= ms <= TS_LIMIT_MS,
{
    match NaiveDate::from_ymd_opt(year, month, day) {
        Some(date) => match date.and_hms_opt(hour, minute, second) {
            Some(t) => Some(t.and_utc().timestamp_millis()),
            None => None,
        },
        None => None,
    }
}

/// Relies on chrono's `Utc::now`: the current instant, in milliseconds since
/// the Unix epoch.  Nothing is promised of the clock's value beyond chrono's
/// calendar range.
#[verifier::external_body]
pub fn now_millis() -> (r: i64)
    ensures
        -TS_LIMIT_MS <= r <= TS_LIMIT_MS,
{
    Utc::now().timestamp_millis()
}

} // verus!
