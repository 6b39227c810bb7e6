//! Publication dates of feed items, read with chrono's parsers.

use chrono::{DateTime, Datelike, FixedOffset, Local, NaiveDate, NaiveTime};
use vstd::prelude::*;

use crate::feed::TryFromError;

verus! {

/// An instant: whole seconds since the Unix epoch and the nanoseconds past them
/// (chrono's `timestamp` and `timestamp_subsec_nanos`). Two dates are equal and
/// ordered as these pairs are.
#[derive(Clone, Copy, Debug, PartialEq, Eq, Structural)]
pub struct Timestamp {
    pub secs: i64,
    pub nanos: u32,
}

impl Timestamp {
    /// `self` is a later instant than `other`.
    pub open spec fn is_after(self, other: Timestamp) -> bool {
        self.secs > other.secs || (self.secs == other.secs && self.nanos > other.nanos)
    }

    /// Whether `self` is a later instant than `other`.
    pub fn later_than(&self, other: &Timestamp) -> (r: bool)
        ensures
            r == self.is_after(*other),
    {
        self.secs > other.secs || (self.secs == other.secs && self.nanos > other.nanos)
    }
}

/// The format of a bare calendar date, the last form tried.
pub const DATE_FORMAT: &'static str = "%Y-%m-%d";

/// Days from 1970-01-01 to the given day of the proleptic Gregorian calendar.
pub open spec fn days_from_civil(year: int, month: int, day: int) -> int {
    let y = if month <= 2 { year - 1 } else { year };
    let era = y / 400;
    let yoe = y - era * 400;
    let mp = if month > 2 { month - 3 } else { month + 9 };
    let doy = (153 * mp + 2) / 5 + day - 1;
    let doe = yoe * 365 + yoe / 4 - yoe / 100 + doy;
    era * 146097 + doe - 719468
}

/// `t` is the instant of a local midnight of the given day: chrono's local
/// offsets are whole seconds strictly within one day of UTC.
pub open spec fn near_midnight(year: int, month: int, day: int, t: Timestamp) -> bool {
    let utc = days_from_civil(year, month, day) * 86400;
    &&& t.nanos == 0
    &&& utc - 86400 < t.secs < utc + 86400
}

/// What chrono's `DateTime<FixedOffset>::from_str` gives for a text, as an instant.
pub uninterp spec fn spec_datetime_from_str(s: Seq<char>) -> Option<Timestamp>;

/// What chrono's `DateTime::parse_from_rfc2822` gives for a text, as an instant.
pub uninterp spec fn spec_parse_from_rfc2822(s: Seq<char>) -> Option<Timestamp>;

/// What chrono's `DateTime::parse_from_rfc3339` gives for a text, as an instant.
pub uninterp spec fn spec_parse_from_rfc3339(s: Seq<char>) -> Option<Timestamp>;

/// What chrono's `NaiveDate::parse_from_str` gives for a text and a format, as
/// year, month and day.
pub uninterp spec fn spec_naive_date_from_str(s: Seq<char>, fmt: Seq<char>) -> Option<(i32, u32, u32)>;

/// Calls `<DateTime<FixedOffset> as FromStr>::from_str`. Claimed: the outcome,
/// success and instant, is a function of the text alone.
#[verifier::external_body]
fn datetime_from_str(s: &str) -> (r: Option<Timestamp>)
    ensures
        r == spec_datetime_from_str(s@),
{
    match s.parse::<DateTime<FixedOffset>>() {
        Ok(d) => Some(Timestamp { secs: d.timestamp(), nanos: d.timestamp_subsec_nanos() }),
        Err(_) => None,
    }
}

/// Calls `DateTime::parse_from_rfc2822`. Claimed: the outcome is a function of
/// the text alone.
#[verifier::external_body]
fn parse_from_rfc2822(s: &str) -> (r: Option<Timestamp>)
    ensures
        r == spec_parse_from_rfc2822(s@),
{
    match DateTime::parse_from_rfc2822(s) {
        Ok(d) => Some(Timestamp { secs: d.timestamp(), nanos: d.timestamp_subsec_nanos() }),
        Err(_) => None,
    }
}

/// Calls `DateTime::parse_from_rfc3339`. Claimed: the outcome is a function of
/// the text alone.
#[verifier::external_body]
fn parse_from_rfc3339(s: &str) -> (r: Option<Timestamp>)
    ensures
        r == spec_parse_from_rfc3339(s@),
{
    match DateTime::parse_from_rfc3339(s) {
        Ok(d) => Some(Timestamp { secs: d.timestamp(), nanos: d.timestamp_subsec_nanos() }),
        Err(_) => None,
    }
}

/// Calls `NaiveDate::parse_from_str`. Claimed: the outcome is a function of the
/// text and the format, and a date found has a month in 1..=12 and a day in 1..=31.
#[verifier::external_body]
fn naive_date_from_str(s: &str, fmt: &str) -> (r: Option<(i32, u32, u32)>)
    ensures
        r == spec_naive_date_from_str(s@, fmt@),
        r matches Some((y, m, d)) ==> 1 <= m <= 12 && 1 <= d <= 31,
{
    match NaiveDate::parse_from_str(s, fmt) {
        Ok(d) => Some((d.year(), d.month(), d.day())),
        Err(_) => None,
    }
}

/// Calls `NaiveDateTime::and_local_timezone(Local)` on midnight of the given
/// day, keeping only a single answer. Which instant comes back rests on the
/// machine's time zone, so nothing names it; claimed is only that it is within
/// a day of that day's UTC midnight, on a whole second. `None` stands for a
/// midnight that the zone skips or repeats (and for a day that does not exist).
#[verifier::external_body]
fn local_midnight(year: i32, month: u32, day: u32) -> (r: Option<Timestamp>)
    ensures
        r matches Some(t) ==> near_midnight(year as int, month as int, day as int, t),
{
    let date = NaiveDate::from_ymd_opt(year, month, day)?;
    let t = date.and_time(NaiveTime::default()).and_local_timezone(Local).single()?;
    Some(Timestamp { secs: t.timestamp(), nanos: t.timestamp_subsec_nanos() })
}

/// One of chrono's relaxed RFC 3339 parser, RFC 2822 and RFC 3339 accepts
/// `s`, so its outcome rests on the text alone.
pub open spec fn date_form_decided(s: Seq<char>) -> bool {
    ||| spec_datetime_from_str(s) is Some
    ||| spec_parse_from_rfc2822(s) is Some
    ||| spec_parse_from_rfc3339(s) is Some
}

/// The outcome of reading a publication date `s`: the first of chrono's
/// relaxed RFC 3339 parser, RFC 2822 and RFC 3339 that accepts it, else a
/// bare date taken at local midnight, else `ParsePubDate`.
pub open spec fn date_outcome(s: Seq<char>, r: Result<Timestamp, TryFromError>) -> bool {
    match spec_datetime_from_str(s) {
        Some(t) => r == Ok::<Timestamp, TryFromError>(t),
        None => match spec_parse_from_rfc2822(s) {
            Some(t) => r == Ok::<Timestamp, TryFromError>(t),
            None => match spec_parse_from_rfc3339(s) {
                Some(t) => r == Ok::<Timestamp, TryFromError>(t),
                None => match spec_naive_date_from_str(s, DATE_FORMAT@) {
                    None => r == Err::<Timestamp, TryFromError>(TryFromError::ParsePubDate),
                    Some((y, m, d)) => r matches Ok(t) && near_midnight(y as int, m as int, d as int, t),
                },
            },
        },
    }
}

/// The first date found, in the order in which the forms are tried; the last
/// one, `local_midnight`, is a bare date taken at local midnight.
pub fn select_date(
    from_str: Option<Timestamp>,
    rfc2822: Option<Timestamp>,
    rfc3339: Option<Timestamp>,
    local_midnight: Option<Timestamp>,
) -> (r: Result<Timestamp, TryFromError>)
    ensures
        r == match (from_str, rfc2822, rfc3339, local_midnight) {
            (Some(t), _, _, _) => Ok(t),
            (None, Some(t), _, _) => Ok(t),
            (None, None, Some(t), _) => Ok(t),
            (None, None, None, Some(t)) => Ok(t),
            (None, None, None, None) => Err(TryFromError::ParsePubDate),
        },
{
    match (from_str, rfc2822, rfc3339, local_midnight) {
        (Some(t), _, _, _) => Ok(t),
        (None, Some(t), _, _) => Ok(t),
        (None, None, Some(t), _) => Ok(t),
        (None, None, None, Some(t)) => Ok(t),
        (None, None, None, None) => Err(TryFromError::ParsePubDate),
    }
}

/// The instant of UTC midnight of the given day, in seconds since the epoch.
fn utc_midnight_secs(year: i32, month: u32, day: u32) -> (r: i64)
    requires
        1 <= month <= 12,
        1 <= day <= 31,
    ensures
        r == days_from_civil(year as int, month as int, day as int) * 86400,
{
    // Shifted by whole 400-year eras so that every quotient below is of a
    // number that is not negative.
    let y: i64 = if month <= 2 { year as i64 - 1 } else { year as i64 };
    let shifted: i64 = y + 2_160_000_000;
    let era: i64 = shifted / 400;
    let yoe: i64 = shifted - era * 400;
    let mp: i64 = if month > 2 { month as i64 - 3 } else { month as i64 + 9 };
    let doy: i64 = (153 * mp + 2) / 5 + day as i64 - 1;
    let doe: i64 = yoe * 365 + yoe / 4 - yoe / 100 + doy;
    proof {
        let ys: int = y as int;
        assert(shifted == ys + 400 * 5_400_000);
        assert(era == ys / 400 + 5_400_000 && yoe == ys - (ys / 400) * 400) by (nonlinear_arith)
            requires
                shifted == ys + 400 * 5_400_000,
                shifted >= 0,
                era == shifted / 400,
                yoe == shifted - era * 400,
        {
            assert(shifted / 400 == ys / 400 + 5_400_000);
        }
        assert(0 <= yoe < 400);
    }
    ((era - 5_400_000) * 146097 + doe - 719468) * 86400
}

/// Reads a publication date in any of the forms that feeds use.
///
/// A bare date is taken at local midnight. Where the zone skips or repeats
/// that midnight, so that it is no single instant, UTC midnight of the day
/// stands for it.
pub fn parse_date(date: &str) -> (r: Result<Timestamp, TryFromError>)
    ensures
        date_outcome(date@, r),
        r is Err <==> {
            &&& spec_datetime_from_str(date@) is None
            &&& spec_parse_from_rfc2822(date@) is None
            &&& spec_parse_from_rfc3339(date@) is None
            &&& spec_naive_date_from_str(date@, DATE_FORMAT@) is None
        },
        r is Err ==> r == Err::<Timestamp, TryFromError>(TryFromError::ParsePubDate),
        spec_datetime_from_str(date@) matches Some(t) ==> r == Ok::<Timestamp, TryFromError>(t),
        spec_naive_date_from_str(date@, DATE_FORMAT@) matches Some((y, m, d)) ==> (r matches Ok(t)
            && (spec_datetime_from_str(date@) is None && spec_parse_from_rfc2822(date@) is None
                && spec_parse_from_rfc3339(date@) is None ==> near_midnight(y as int, m as int, d as int, t))),
{
    let from_str = datetime_from_str(date);
    let rfc2822 = parse_from_rfc2822(date);
    let rfc3339 = parse_from_rfc3339(date);
    let mut local: Option<Timestamp> = None;
    if from_str.is_none() && rfc2822.is_none() && rfc3339.is_none() {
        if let Some((y, m, d)) = naive_date_from_str(date, DATE_FORMAT) {
            local = match local_midnight(y, m, d) {
                Some(t) => Some(t),
                None => Some(Timestamp { secs: utc_midnight_secs(y, m, d), nanos: 0 }),
            };
        }
    }
    select_date(from_str, rfc2822, rfc3339, local)
}

} // verus!
