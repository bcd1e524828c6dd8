use chrono::{DateTime, Datelike};
use chrono_tz::Tz;
use std::str::FromStr;
use vstd::prelude::*;

verus! {

/// Whether the time zone database has a zone of this name.
pub uninterp spec fn zone_known(zone: Seq<char>) -> bool;

/// The calendar year in which the instant `secs` seconds after the start of
/// 1970 (UTC) falls for a clock in the named zone; `None` where the zone is
/// not known or the instant is beyond the calendar's range.
pub uninterp spec fn local_year(zone: Seq<char>, secs: i64) -> Option<i32>;

/// Looks the name up with `Tz::from_str`.
///
/// Trusted: whether that lookup succeeds depends on the name alone.
#[verifier::external_body]
pub(crate) fn zone_exists(zone: &str) -> (known: bool)
    ensures
        known == zone_known(zone@),
{
    Tz::from_str(zone).is_ok()
}

/// Reads the calendar year of an instant in a zone: `Tz::from_str` for the
/// zone, `DateTime::from_timestamp` for the instant, then
/// `DateTime::with_timezone` and `Datelike::year`.
///
/// Trusted: the result depends on the zone's name and the instant alone.
#[verifier::external_body]
pub(crate) fn year_in_zone(zone: &str, secs: i64) -> (year: Option<i32>)
    ensures
        year == local_year(zone@, secs),
{
    let tz = Tz::from_str(zone).ok()?;
    let utc = DateTime::from_timestamp(secs, 0)?;
    Some(utc.with_timezone(&tz).year())
}

/// The position of a year in a window of `years` years that starts with
/// `first_year`; `None` where there is no year or it lies outside.
pub open spec fn bucket_of(year: Option<i32>, first_year: i32, years: usize) -> Option<usize> {
    match year {
        Some(y) => if first_year <= y && y - first_year < years {
            Some((y - first_year) as usize)
        } else {
            None
        },
        None => None,
    }
}

/// Finds the position of a year in the window, if it lies inside.
pub fn bucket_index(year: Option<i32>, first_year: i32, years: usize) -> (r: Option<usize>)
    ensures
        r == bucket_of(year, first_year, years),
{
    match year {
        Some(y) => {
            if y < first_year {
                None
            } else {
                let offset: i64 = (y as i64) - (first_year as i64);
                if (offset as u64) < (years as u64) {
                    Some(offset as usize)
                } else {
                    None
                }
            }
        },
        None => None,
    }
}

/// Whether the time zone database has a zone of this name.
pub fn is_known_zone(zone: &str) -> (known: bool)
    ensures
        known == zone_known(zone@),
{
    zone_exists(zone)
}

/// The position in the window of the year in which an instant falls for a
/// clock in the named zone.
pub fn bucket_at(zone: &str, secs: i64, first_year: i32, years: usize) -> (r: Option<usize>)
    ensures
        r == bucket_of(local_year(zone@, secs), first_year, years),
{
    bucket_index(year_in_zone(zone, secs), first_year, years)
}

} // verus!
