//! Timestamps and calendar days, as plain integers, with the conversions
//! that `chrono` performs.

use vstd::prelude::*;

verus! {

/// Whether `chrono` can represent the instant `ms` milliseconds after the
/// Unix epoch (`DateTime::from_timestamp_millis` returns `Some`).
pub uninterp spec fn millis_in_range(ms: i64) -> bool;

/// Calls `chrono::DateTime::from_timestamp_millis`; the result says whether it
/// returned `Some`, which the crate documents as "the number of milliseconds
/// is in range". The range itself is not stated here.
#[verifier::external_body]
fn timestamp_representable(ms: i64) -> (r: bool)
    ensures
        r == millis_in_range(ms),
{
    chrono::DateTime::from_timestamp_millis(ms).is_some()
}

/// A stored millisecond timestamp as an instant: kept when it is representable.
pub open spec fn instant_of(ms: Option<i64>) -> Option<i64> {
    match ms {
        Some(m) => if millis_in_range(m) {
            Some(m)
        } else {
            None
        },
        None => None,
    }
}

/// Turns a stored millisecond timestamp into an instant, dropping those that
/// cannot be represented.
pub fn to_instant(ms: Option<i64>) -> (r: Option<i64>)
    ensures
        r == instant_of(ms),
{
    match ms {
        Some(m) => if timestamp_representable(m) {
            Some(m)
        } else {
            None
        },
        None => None,
    }
}

/// The `YYYY-MM-DD` text that `chrono` gives the day numbered `day`, counting
/// January 1 of year 1 as day 1; `None` where the day is out of its range.
pub uninterp spec fn day_text(day: i32) -> Option<Seq<char>>;

/// Calls `chrono::NaiveDate::from_num_days_from_ce_opt` and formats the date
/// with its `Display` impl. The text is named, not spelled out.
#[verifier::external_body]
pub(crate) fn format_day(day: i32) -> (r: Option<String>)
    ensures
        r matches Some(s) ==> day_text(day) == Some(s@),
        r is None <==> day_text(day) is None,
{
    chrono::NaiveDate::from_num_days_from_ce_opt(day).map(|d| d.to_string())
}

/// The `MM/DD` text that `chrono` gives the day numbered `day` (format
/// `%m/%d`); `None` where the day is out of its range.
pub uninterp spec fn month_day_text(day: i32) -> Option<Seq<char>>;

/// Calls `chrono::NaiveDate::from_num_days_from_ce_opt` and formats the date
/// with `%m/%d`. The text is named, not spelled out; the same constructor
/// decides whether there is a date, so there is one exactly when `day_text`
/// has one.
#[verifier::external_body]
pub(crate) fn format_month_day(day: i32) -> (r: Option<String>)
    ensures
        r matches Some(s) ==> month_day_text(day) == Some(s@),
        r is None <==> month_day_text(day) is None,
        r is None <==> day_text(day) is None,
{
    chrono::NaiveDate::from_num_days_from_ce_opt(day).map(|d| d.format("%m/%d").to_string())
}

} // verus!
