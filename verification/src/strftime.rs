//! Date formatting through chrono's strftime support. The formatted text for
//! a given format string and date is named rather than restated; callers get
//! exactly that text, or `None` for a format string chrono cannot format a
//! plain date with.

use std::fmt::Write;
use vstd::prelude::*;
use crate::date::{PickerDate, valid_ymd};

verus! {

/// The text chrono's strftime formatting produces for the given format
/// string and date. A function of the format string and the date alone.
pub uninterp spec fn strftime_of(fmt: Seq<char>, y: int, m: int, d: int) -> Seq<char>;

/// Whether chrono can format a plain date with the given format string: the
/// string parses, and asks only for date fields (no time or time zone).
/// A function of the format string alone.
pub uninterp spec fn strftime_ok(fmt: Seq<char>) -> bool;

/// Relies on chrono's `NaiveDate::from_ymd_opt` (which accepts every valid
/// date in this library's year range) and `NaiveDate::format`: formatting
/// writes text that depends on the format string and the date alone, and
/// reports an error, for every date alike, exactly when the format string is
/// malformed or asks for non-date fields.
#[verifier::external_body]
fn chrono_format_ymd(y: i32, m: u32, d: u32, fmt: &str) -> (r: Option<String>)
    requires
        valid_ymd(y as int, m as int, d as int),
    ensures
        r is Some <==> strftime_ok(fmt@),
        r matches Some(s) ==> s@ == strftime_of(fmt@, y as int, m as int, d as int),
{
    match chrono::NaiveDate::from_ymd_opt(y, m, d) {
        Some(nd) => {
            let mut out = String::new();
            match write!(out, "{}", nd.format(fmt)) {
                Ok(()) => Some(out),
                Err(_) => None,
            }
        },
        None => None,
    }
}

/// Format a date with a strftime string, or `None` exactly when chrono
/// cannot format a plain date with that string.
pub fn format_date(date: &PickerDate, fmt: &str) -> (r: Option<String>)
    requires
        date.inv(),
    ensures
        r is Some <==> strftime_ok(fmt@),
        r matches Some(s) ==> s@ == strftime_of(
            fmt@,
            date.year as int,
            date.month as int,
            date.day as int,
        ),
{
    chrono_format_ymd(date.year, date.month, date.day, fmt)
}

} // verus!
