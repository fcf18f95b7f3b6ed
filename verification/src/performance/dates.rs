use vstd::prelude::*;

use chrono::{Datelike, NaiveDate, Offset, TimeDelta, TimeZone};
use chrono_tz::Tz;

use crate::error::FerricAlphaError;
use crate::performance::options::TimeBucket;
use crate::report::table::ReportTimeUnit;

verus! {

/// The first date chrono supports, in days from 1970-01-01.
pub const MIN_DAY: i64 = -96_465_292;

/// The last date chrono supports, in days from 1970-01-01.
pub const MAX_DAY: i64 = 95_026_236;

/// Milliseconds in a day.
pub const DAY_MILLIS: i64 = 86_400_000;

/// The milliseconds from 1970-01-01 UTC that a date value in `unit` stands for, rounded down.
pub open spec fn millis_of(value: i64, unit: ReportTimeUnit) -> int {
    match unit {
        ReportTimeUnit::Nanoseconds => value / 1_000_000,
        ReportTimeUnit::Microseconds => value / 1_000,
        ReportTimeUnit::Milliseconds => value as int,
    }
}

/// The day, from 1970-01-01, that an instant in milliseconds falls on.
pub open spec fn day_of(millis: int) -> int {
    millis / (DAY_MILLIS as int)
}

/// chrono can represent the instant: its day lies between the first and last supported dates.
pub open spec fn representable(millis: int) -> bool {
    MIN_DAY <= day_of(millis) <= MAX_DAY
}

/// The day of the week, counted from Sunday, of a day from 1970-01-01 (a Thursday).
pub open spec fn weekday_from_sunday(day: int) -> int {
    (day + 4) % 7
}

/// The Sunday that ends the week of `day` (the day itself when it is a Sunday).
pub open spec fn week_end(day: int) -> int {
    day + (7 - weekday_from_sunday(day)) % 7
}

/// The time zone database knows a zone of this name.
pub uninterp spec fn zone_known(name: Seq<char>) -> bool;

/// The offset from UTC, in seconds, of the named zone at an instant in milliseconds.
pub uninterp spec fn zone_offset(name: Seq<char>, millis: int) -> int;

/// The first day of the month that a day, from 1970-01-01, falls in, in the proleptic
/// Gregorian calendar: the day's place in its 400-year era and in its year (counted from
/// March 1), then the start of its month within that year.
pub open spec fn month_start(day: int) -> int {
    let z = day + 719_468;
    let era = z / 146_097;
    let doe = z - era * 146_097;
    let yoe = (doe - doe / 1_460 + doe / 36_524 - doe / 146_096) / 365;
    let doy = doe - (365 * yoe + yoe / 4 - yoe / 100);
    let mp = (5 * doy + 2) / 153;
    day - doy + (153 * mp + 2) / 5
}

/// chrono-tz's `Tz::from_str`: whether the time zone database has a zone of this name.
#[verifier::external_body]
fn parse_zone(name: &str) -> (r: bool)
    ensures
        r == zone_known(name@),
{
    name.parse::<Tz>().is_ok()
}

/// chrono's `TimeZone::offset_from_utc_datetime` for the zone called `name` (read with
/// `Tz::from_str`), at the instant `millis`: the offset in seconds, which chrono keeps
/// strictly within a day of UTC.
#[verifier::external_body]
fn zone_offset_seconds(name: &str, millis: i64) -> (r: i32)
    requires
        zone_known(name@),
        representable(millis as int),
    ensures
        r == zone_offset(name@, millis as int),
        -86_400 < r < 86_400,
{
    let zone: Tz = name.parse().unwrap();
    let instant = chrono::DateTime::from_timestamp_millis(millis).unwrap().naive_utc();
    zone.offset_from_utc_datetime(&instant).fix().local_minus_utc()
}

/// The first of the month lies at most thirty days before the day.
pub proof fn lemma_month_start(day: int)
    ensures
        month_start(day) <= day,
        day - month_start(day) <= 30,
{
    let z = day + 719_468;
    let era = z / 146_097;
    let doe = z - era * 146_097;
    let yoe = (doe - doe / 1_460 + doe / 36_524 - doe / 146_096) / 365;
    let doy = doe - (365 * yoe + yoe / 4 - yoe / 100);
    let mp = (5 * doy + 2) / 153;
    let start = (153 * mp + 2) / 5;
    assert(153 * mp <= 5 * doy + 2 < 153 * mp + 153) by (nonlinear_arith)
        requires
            mp == (5 * doy + 2) / 153,
    ;
    assert(5 * start <= 153 * mp + 2 < 5 * start + 5) by (nonlinear_arith)
        requires
            start == (153 * mp + 2) / 5,
    ;
    assert(month_start(day) == day - doy + start);
}

/// chrono's `NaiveDate::from_ymd_opt(year, month, 1)` for the year and month of a day, with
/// days counted from 1970-01-01 (`NaiveDate::default()`): the first of the month in chrono's
/// proleptic Gregorian calendar, as `month_start` computes it.
#[verifier::external_body]
fn first_of_month(day: i64) -> (r: i64)
    requires
        MIN_DAY <= day <= MAX_DAY,
    ensures
        r == month_start(day as int),
{
    let epoch = NaiveDate::default();
    let date = epoch.checked_add_signed(TimeDelta::days(day)).unwrap();
    let start = NaiveDate::from_ymd_opt(date.year(), date.month(), 1).unwrap();
    start.signed_duration_since(epoch).num_days()
}

/// The local day of an instant: UTC when no zone is given, else shifted by the zone's offset.
pub open spec fn local_day(millis: int, zone: Option<Seq<char>>) -> int {
    match zone {
        None => day_of(millis),
        Some(z) => day_of(millis + zone_offset(z, millis) * 1000),
    }
}

pub open spec fn range_error() -> FerricAlphaError {
    FerricAlphaError::InvalidInput {
        operation: "bucket_date",
        reason: "datetime value is outside supported range",
    }
}

pub open spec fn zone_error() -> FerricAlphaError {
    FerricAlphaError::InvalidInput { operation: "bucket_date", reason: "unsupported datetime timezone" }
}

pub open spec fn zone_view(zone: Option<&str>) -> Option<Seq<char>> {
    match zone {
        Some(z) => Some(z@),
        None => None,
    }
}

/// What reading a date value gives: its local day, or why it cannot be read.
pub open spec fn epoch_day_result(value: i64, unit: ReportTimeUnit, zone: Option<Seq<char>>) -> Result<
    int,
    FerricAlphaError,
> {
    let m = millis_of(value, unit);
    if !representable(m) {
        Err(range_error())
    } else if zone matches Some(z) && !zone_known(z) {
        Err(zone_error())
    } else {
        Ok(local_day(m, zone))
    }
}

/// Inputs on which chrono keeps every step of the bucketing in range: the local day lies
/// between the first and last supported dates, and for a weekly bucket so does the Sunday
/// ending its week. Values that cannot be read at all are refused with an error instead.
pub open spec fn bucket_in_range(
    value: i64,
    unit: ReportTimeUnit,
    zone: Option<Seq<char>>,
    bucket: TimeBucket,
) -> bool {
    match epoch_day_result(value, unit, zone) {
        Ok(d) => MIN_DAY <= d <= MAX_DAY && (bucket == TimeBucket::Weekly ==> week_end(d)
            <= MAX_DAY),
        Err(_) => true,
    }
}

/// The local day of a date value, which a zone may move one day past the supported range.
fn local_epoch_day(value: i64, unit: ReportTimeUnit, timezone: Option<&str>) -> (r: Result<
    i64,
    FerricAlphaError,
>)
    ensures
        match epoch_day_result(value, unit, zone_view(timezone)) {
            Ok(d) => r == Ok::<i64, FerricAlphaError>(d as i64) && MIN_DAY - 1 <= d <= MAX_DAY + 1,
            Err(e) => r == Err::<i64, FerricAlphaError>(e),
        },
{
    let millis: i64 = match unit {
        ReportTimeUnit::Nanoseconds => value.checked_div_euclid(1_000_000).unwrap(),
        ReportTimeUnit::Microseconds => value.checked_div_euclid(1_000).unwrap(),
        ReportTimeUnit::Milliseconds => value,
    };
    let day: i64 = millis.checked_div_euclid(DAY_MILLIS).unwrap();
    if day < MIN_DAY || day > MAX_DAY {
        return Err(
            FerricAlphaError::InvalidInput {
                operation: "bucket_date",
                reason: "datetime value is outside supported range",
            },
        );
    }
    match timezone {
        None => Ok(day),
        Some(name) => {
            if !parse_zone(name) {
                return Err(
                    FerricAlphaError::InvalidInput {
                        operation: "bucket_date",
                        reason: "unsupported datetime timezone",
                    },
                );
            }
            let offset: i32 = zone_offset_seconds(name, millis);
            let local: i64 = millis + (offset as i64) * 1000;
            let local_day: i64 = local.checked_div_euclid(DAY_MILLIS).unwrap();
            assert(day - 1 <= local_day <= day + 1) by (nonlinear_arith)
                requires
                    local == millis + offset * 1000,
                    -86_400 < offset < 86_400,
                    day == millis / 86_400_000,
                    local_day == local / 86_400_000,
            ;
            Ok(local_day)
        },
    }
}

/// The day, from 1970-01-01, that a date value falls on in its zone (UTC without one).
pub fn epoch_days(value: i64, unit: ReportTimeUnit, timezone: Option<&str>) -> (r: Result<
    i32,
    FerricAlphaError,
>)
    requires
        epoch_day_result(value, unit, zone_view(timezone)) matches Ok(d) ==> MIN_DAY <= d <= MAX_DAY,
    ensures
        match epoch_day_result(value, unit, zone_view(timezone)) {
            Ok(d) => r == Ok::<i32, FerricAlphaError>(d as i32),
            Err(e) => r == Err::<i32, FerricAlphaError>(e),
        },
{
    match local_epoch_day(value, unit, timezone) {
        Ok(d) => Ok(d as i32),
        Err(e) => Err(e),
    }
}

/// The bucket of a date value, or why it cannot be read.
pub open spec fn bucket_result(
    value: i64,
    unit: ReportTimeUnit,
    zone: Option<Seq<char>>,
    bucket: TimeBucket,
) -> Result<i32, FerricAlphaError> {
    match epoch_day_result(value, unit, zone) {
        Ok(d) => Ok(
            match bucket {
                TimeBucket::Daily => d,
                TimeBucket::Weekly => week_end(d),
                TimeBucket::Monthly => month_start(d),
            } as i32,
        ),
        Err(e) => Err(e),
    }
}

/// The day a date value is grouped under: its own day, the Sunday ending its week, or the
/// first day of its month.
pub fn bucket_date(value: i64, unit: ReportTimeUnit, timezone: Option<&str>, bucket: TimeBucket) -> (r:
    Result<i32, FerricAlphaError>)
    requires
        bucket_in_range(value, unit, zone_view(timezone), bucket),
    ensures
        r == bucket_result(value, unit, zone_view(timezone), bucket),
{
    let day: i32 = match epoch_days(value, unit, timezone) {
        Ok(d) => d,
        Err(e) => {
            return Err(e);
        },
    };
    match bucket {
        TimeBucket::Daily => Ok(day),
        TimeBucket::Weekly => {
            let from_sunday: i32 = (day + 4).checked_rem_euclid(7).unwrap();
            Ok(day + (7 - from_sunday) % 7)
        },
        TimeBucket::Monthly => {
            let start: i64 = first_of_month(day as i64);
            proof {
                lemma_month_start(day as int);
            }
            Ok(start as i32)
        },
    }
}


/// Buckets a date value where chrono can (`bucket_in_range`), and gives `None` where the
/// bucket would leave chrono's range of dates.
pub fn try_bucket_date(value: i64, unit: ReportTimeUnit, timezone: Option<&str>, bucket: TimeBucket) -> (r:
    Option<Result<i32, FerricAlphaError>>)
    ensures
        bucket_in_range(value, unit, zone_view(timezone), bucket) ==> r == Some(
            bucket_result(value, unit, zone_view(timezone), bucket),
        ),
        !bucket_in_range(value, unit, zone_view(timezone), bucket) ==> r is None,
{
    let day: i64 = match local_epoch_day(value, unit, timezone) {
        Ok(d) => d,
        Err(e) => {
            return Some(Err(e));
        },
    };
    if day < MIN_DAY || day > MAX_DAY {
        return None;
    }
    if bucket == TimeBucket::Weekly {
        let from_sunday: i64 = (day + 4).checked_rem_euclid(7).unwrap();
        if day + (7 - from_sunday) % 7 > MAX_DAY {
            return None;
        }
    }
    Some(bucket_date(value, unit, timezone, bucket))
}

/// The end of a week is a Sunday no more than six days after the day.
pub proof fn lemma_week_end(day: int)
    ensures
        day <= week_end(day) <= day + 6,
        weekday_from_sunday(week_end(day)) == 0,
{
}

} // verus!
