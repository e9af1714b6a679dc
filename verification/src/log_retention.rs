//! Which frontend log files are kept: one file per day, named
//! `frontend-YYYY-MM-DD.log`, kept for a week.
//!
//! Days are counted as `chrono` counts them, from January 1 of year 1
//! (day 1).  The calendar itself (reading and writing dates, stepping back
//! by days) is `chrono`'s.

use vstd::prelude::*;

use chrono::Datelike;

use crate::text::{
    chars_of, ends_with, push_str, starts_with, str_ends_with, str_starts_with, string_of_range,
    to_owned_string,
};

verus! {

/// The day a `%Y-%m-%d` text names, if it names one.
pub uninterp spec fn ymd_day(text: Seq<char>) -> Option<i32>;

/// The `%Y-%m-%d` text of a day, if the day is in `chrono`'s range.
pub uninterp spec fn day_text(day: i32) -> Option<Seq<char>>;

/// The day `n` days before `day`, if both are in `chrono`'s range.
pub uninterp spec fn earlier_day(day: i32, n: u64) -> Option<i32>;

/// The day numbers `chrono` represents: from January 1 of year -262143 to
/// December 31 of year 262142 (`NaiveDate::MIN` and `NaiveDate::MAX`),
/// counted as `num_days_from_ce` does.
pub open spec fn day_in_range(day: int) -> bool {
    -95746129 <= day <= 95745399
}

/// `NaiveDate::parse_from_str(text, "%Y-%m-%d")`, as a day number.
///
/// Claimed: the result depends on the text alone.  Which texts `chrono`
/// accepts is not stated.
#[verifier::external_body]
fn parse_ymd(text: &str) -> (r: Option<i32>)
    ensures
        r == ymd_day(text@),
{
    chrono::NaiveDate::parse_from_str(text, "%Y-%m-%d").ok().map(|d| d.num_days_from_ce())
}

/// `NaiveDate::format("%Y-%m-%d")` of a day number.
///
/// Claimed: the result depends on the day alone, and there is one exactly
/// when the day is in `chrono`'s range (`from_num_days_from_ce_opt`).
#[verifier::external_body]
fn format_ymd(day: i32) -> (r: Option<String>)
    ensures
        match day_text(day) {
            Some(t) => r matches Some(s) && s@ == t,
            None => r is None,
        },
        r is Some <==> day_in_range(day as int),
{
    chrono::NaiveDate::from_num_days_from_ce_opt(day).map(|d| d.format("%Y-%m-%d").to_string())
}

/// `NaiveDate::checked_sub_days`, on day numbers.
///
/// Claimed: the result depends on its arguments alone, a day it gives is
/// `n` days before `day` (chrono documents it as that date, and day numbers
/// count days), and there is one exactly when both days are in `chrono`'s
/// range.
#[verifier::external_body]
fn days_before(day: i32, n: u64) -> (r: Option<i32>)
    ensures
        r == earlier_day(day, n),
        r matches Some(x) ==> x == day - n,
        r is Some <==> (day_in_range(day as int) && day_in_range(day - n)),
{
    chrono::NaiveDate::from_num_days_from_ce_opt(day)
        .and_then(|d| d.checked_sub_days(chrono::Days::new(n)))
        .map(|d| d.num_days_from_ce())
}

/// How many days of logs are kept, today included.
pub const RETENTION_DAYS: u64 = 7;

/// The first day whose log is kept: six days before today, or today when
/// that day is out of range.
pub open spec fn retention_start_of(today: i32) -> i32 {
    match earlier_day(today, (RETENTION_DAYS - 1) as u64) {
        Some(d) => d,
        None => today,
    }
}

/// The first day whose log is kept.
pub fn retention_start_day(today: i32) -> (d: i32)
    ensures
        d == retention_start_of(today),
        d == if day_in_range(today as int) && day_in_range(today - 6) {
            today - 6
        } else {
            today as int
        },
{
    match days_before(today, RETENTION_DAYS - 1) {
        Some(d) => d,
        None => today,
    }
}

/// The date part of a frontend log's file name, if it is one.
pub open spec fn log_date_text(name: Seq<char>) -> Option<Seq<char>> {
    if starts_with(name, "frontend-"@) && ends_with(name, ".log"@) && name.len() >= 13 {
        Some(name.subrange(9, name.len() - 4))
    } else {
        None
    }
}

/// The day of a frontend log's file name, if it is one.
pub open spec fn log_day_of(name: Seq<char>) -> Option<i32> {
    match log_date_text(name) {
        Some(t) => ymd_day(t),
        None => None,
    }
}

/// The day a file name says its log is for, if it is a frontend log.
pub fn frontend_log_day(file_name: &str) -> (r: Option<i32>)
    ensures
        r == log_day_of(file_name@),
{
    if !str_starts_with(file_name, "frontend-") || !str_ends_with(file_name, ".log") {
        return None;
    }
    let v = chars_of(file_name);
    if v.len() < 13 {
        return None;
    }
    let date = string_of_range(&v, 9, v.len() - 4);
    parse_ymd(date.as_str())
}

/// Whether a file is a frontend log from before the first kept day.
pub fn is_stale_log(file_name: &str, keep_from: i32) -> (r: bool)
    ensures
        r == match log_day_of(file_name@) {
            Some(d) => d < keep_from,
            None => false,
        },
{
    match frontend_log_day(file_name) {
        Some(d) => d < keep_from,
        None => false,
    }
}

/// The file name of a day's frontend log.
pub fn log_file_name(day: i32) -> (r: Option<String>)
    ensures
        match day_text(day) {
            Some(t) => r matches Some(s) && s@ == "frontend-"@ + t + ".log"@,
            None => r is None,
        },
        r is Some <==> day_in_range(day as int),
{
    match format_ymd(day) {
        Some(t) => {
            let mut name = to_owned_string("frontend-");
            push_str(&mut name, t.as_str());
            push_str(&mut name, ".log");
            Some(name)
        },
        None => None,
    }
}

} // verus!
