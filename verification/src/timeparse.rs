//! The few places where this library asks a calendar library for help:
//! turning date and timestamp strings into plain numbers, and reading
//! the clock.

use vstd::prelude::*;

verus! {

/// What parsing a `YYYY-MM-DD` string to days since the Unix epoch
/// returns: a function of the characters alone.
pub uninterp spec fn date_ymd_days(s: Seq<char>) -> Option<i64>;

/// Relies on chrono's NaiveDate::parse_from_str with the `%Y-%m-%d`
/// format and on NaiveDate::signed_duration_since: the day count of a
/// calendar date depends on the characters alone.
#[verifier::external_body]
pub(crate) fn parse_date_ymd_days(s: &str) -> (r: Option<i64>)
    ensures
        r == date_ymd_days(s@),
{
    let date = chrono::NaiveDate::parse_from_str(s, "%Y-%m-%d").ok()?;
    let epoch = chrono::NaiveDate::from_ymd_opt(1970, 1, 1)?;
    Some(date.signed_duration_since(epoch).num_days())
}

} // verus!
