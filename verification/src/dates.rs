//! Calendar dates written `YYYY-MM-DD`, read and written back with chrono.
use vstd::prelude::*;

use chrono::Datelike;

use crate::text::str_eq;

verus! {

/// The (year, month, day) that chrono's `NaiveDate::parse_from_str(s,
/// "%Y-%m-%d")` reads from `s`, or `None` when it rejects `s`.
pub uninterp spec fn parsed_ymd(s: Seq<char>) -> Option<(i32, u32, u32)>;

/// What chrono writes for the date (year, month, day) with the format
/// `%Y-%m-%d`, or `None` when `NaiveDate::from_ymd_opt` rejects the triple.
pub uninterp spec fn formatted_ymd(year: i32, month: u32, day: u32) -> Option<Seq<char>>;

/// `NaiveDate::parse_from_str(s, "%Y-%m-%d")`, with the date it reads given
/// as (year, month, day). What chrono accepts is not restated here: the
/// result is named by `parsed_ymd`.
#[verifier::external_body]
fn parse_ymd(s: &str) -> (r: Option<(i32, u32, u32)>)
    ensures
        r == parsed_ymd(s@),
{
    match chrono::NaiveDate::parse_from_str(s, "%Y-%m-%d") {
        Ok(d) => Some((d.year(), d.month(), d.day())),
        Err(_) => None,
    }
}

/// `NaiveDate::from_ymd_opt(year, month, day)` written with chrono's
/// `format("%Y-%m-%d")`; `None` when chrono has no such date. The text is
/// named by `formatted_ymd`.
#[verifier::external_body]
fn format_ymd(year: i32, month: u32, day: u32) -> (r: Option<String>)
    ensures
        match r {
            Some(t) => formatted_ymd(year, month, day) == Some(t@),
            None => formatted_ymd(year, month, day) is None,
        },
{
    match chrono::NaiveDate::from_ymd_opt(year, month, day) {
        Some(d) => Some(d.format("%Y-%m-%d").to_string()),
        None => None,
    }
}

/// How a date text fares against the rules for search dates.
#[derive(Debug, Clone, Copy, PartialEq, Eq, Structural)]
pub enum DateVerdict {
    /// Ten ASCII characters that chrono reads as `YYYY-MM-DD` and writes back
    /// the same, in 2025 or later.
    Valid,
    /// Not a date written `YYYY-MM-DD`.
    Malformed,
    /// A well-written date before 2025.
    OutOfRange,
}

/// The shape that a date must have before chrono reads it: ten characters,
/// all ASCII.
pub open spec fn date_shape_ok(s: Seq<char>) -> bool {
    s.len() == 10 && vstd::utf8::is_ascii_chars(s)
}

/// The verdict on a date text, given what chrono read from it and what it
/// wrote back.
pub open spec fn date_verdict_of(
    s: Seq<char>,
    parsed: Option<(i32, u32, u32)>,
    formatted: Option<Seq<char>>,
) -> DateVerdict {
    if !date_shape_ok(s) {
        DateVerdict::Malformed
    } else {
        match parsed {
            None => DateVerdict::Malformed,
            Some((y, m, d)) => if formatted != Some(s) {
                DateVerdict::Malformed
            } else if y < 2025 {
                DateVerdict::OutOfRange
            } else {
                DateVerdict::Valid
            },
        }
    }
}

/// The verdict on a date text.
pub open spec fn date_verdict(s: Seq<char>) -> DateVerdict {
    let parsed = parsed_ymd(s);
    let formatted = match parsed {
        Some((y, m, d)) => formatted_ymd(y, m, d),
        None => None,
    };
    date_verdict_of(s, parsed, formatted)
}

/// Judges a date text from what chrono read from it (`parsed`) and what it
/// wrote back for that date (`formatted`).
pub fn judge_date(date: &str, parsed: Option<(i32, u32, u32)>, formatted: Option<&str>) -> (v:
    DateVerdict)
    ensures
        v == date_verdict_of(
            date@,
            parsed,
            match formatted {
                Some(f) => Some(f@),
                None => None,
            },
        ),
{
    if !date.is_ascii() || date.unicode_len() != 10 {
        return DateVerdict::Malformed;
    }
    match parsed {
        None => DateVerdict::Malformed,
        Some((y, _m, _d)) => {
            let same = match formatted {
                Some(f) => str_eq(f, date),
                None => false,
            };
            if !same {
                DateVerdict::Malformed
            } else if y < 2025 {
                DateVerdict::OutOfRange
            } else {
                DateVerdict::Valid
            }
        },
    }
}

/// Checks a date text: ten ASCII characters, read by chrono as
/// `YYYY-MM-DD`, written back the same, in 2025 or later.
pub fn check_date(date: &str) -> (v: DateVerdict)
    ensures
        v == date_verdict(date@),
{
    if !date.is_ascii() || date.unicode_len() != 10 {
        return DateVerdict::Malformed;
    }
    let parsed = parse_ymd(date);
    match parsed {
        None => judge_date(date, None, None),
        Some((y, m, d)) => {
            let formatted = format_ymd(y, m, d);
            match formatted {
                Some(f) => judge_date(date, parsed, Some(f.as_str())),
                None => judge_date(date, parsed, None),
            }
        },
    }
}

} // verus!
