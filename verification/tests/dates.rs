use chrono::{NaiveDate, TimeZone, Utc};
use ferric_alpha::performance::dates::{bucket_date, epoch_days, DAY_MILLIS, MAX_DAY, MIN_DAY};
use ferric_alpha::performance::TimeBucket;
use ferric_alpha::report::ReportTimeUnit;
use ferric_alpha::FerricAlphaError;

fn day(y: i32, m: u32, d: u32) -> i32 {
    NaiveDate::from_ymd_opt(y, m, d)
        .unwrap()
        .signed_duration_since(NaiveDate::default())
        .num_days() as i32
}

fn millis(y: i32, m: u32, d: u32, h: u32) -> i64 {
    Utc.with_ymd_and_hms(y, m, d, h, 0, 0).unwrap().timestamp_millis()
}

#[test]
fn supported_day_range_matches_chrono() {
    assert_eq!(NaiveDate::MIN.signed_duration_since(NaiveDate::default()).num_days(), MIN_DAY);
    assert_eq!(NaiveDate::MAX.signed_duration_since(NaiveDate::default()).num_days(), MAX_DAY);
    let first = MIN_DAY * DAY_MILLIS;
    let last = (MAX_DAY + 1) * DAY_MILLIS - 1;
    assert!(chrono::DateTime::from_timestamp_millis(first).is_some());
    assert!(chrono::DateTime::from_timestamp_millis(first - 1).is_none());
    assert!(chrono::DateTime::from_timestamp_millis(last).is_some());
    assert!(chrono::DateTime::from_timestamp_millis(last + 1).is_none());
    assert!(epoch_days(first, ReportTimeUnit::Milliseconds, None).is_ok());
    assert!(epoch_days(last, ReportTimeUnit::Milliseconds, None).is_ok());
}

#[test]
fn epoch_days_read_each_unit_in_utc() {
    assert_eq!(epoch_days(0, ReportTimeUnit::Milliseconds, None), Ok(0));
    assert_eq!(epoch_days(-1, ReportTimeUnit::Milliseconds, None), Ok(-1));
    assert_eq!(epoch_days(3 * 86_400_000_000, ReportTimeUnit::Microseconds, None), Ok(3));
    assert_eq!(epoch_days(-1, ReportTimeUnit::Nanoseconds, None), Ok(-1));
    let noon = millis(2024, 1, 1, 12);
    assert_eq!(epoch_days(noon * 1_000_000, ReportTimeUnit::Nanoseconds, None), Ok(day(2024, 1, 1)));
}

#[test]
fn epoch_days_follow_the_zone() {
    let early = millis(2024, 1, 1, 3);
    assert_eq!(
        epoch_days(early, ReportTimeUnit::Milliseconds, Some("America/New_York")),
        Ok(day(2023, 12, 31))
    );
    assert_eq!(
        epoch_days(early, ReportTimeUnit::Milliseconds, Some("Asia/Tokyo")),
        Ok(day(2024, 1, 1))
    );
    assert_eq!(
        epoch_days(early, ReportTimeUnit::Milliseconds, Some("Mars/Olympus")),
        Err(FerricAlphaError::InvalidInput {
            operation: "bucket_date",
            reason: "unsupported datetime timezone"
        })
    );
    assert_eq!(
        epoch_days(i64::MIN, ReportTimeUnit::Milliseconds, Some("UTC")),
        Err(FerricAlphaError::InvalidInput {
            operation: "bucket_date",
            reason: "datetime value is outside supported range"
        })
    );
}

#[test]
fn dates_bucket_by_day_week_and_month() {
    let wednesday = millis(2024, 1, 3, 15);
    let unit = ReportTimeUnit::Milliseconds;
    assert_eq!(bucket_date(wednesday, unit, None, TimeBucket::Daily), Ok(day(2024, 1, 3)));
    assert_eq!(bucket_date(wednesday, unit, None, TimeBucket::Weekly), Ok(day(2024, 1, 7)));
    assert_eq!(bucket_date(wednesday, unit, None, TimeBucket::Monthly), Ok(day(2024, 1, 1)));
    let sunday = millis(2024, 1, 7, 1);
    assert_eq!(bucket_date(sunday, unit, None, TimeBucket::Weekly), Ok(day(2024, 1, 7)));
    assert_eq!(
        bucket_date(sunday, unit, Some("America/Los_Angeles"), TimeBucket::Weekly),
        Ok(day(2024, 1, 7))
    );
    let leap = millis(2024, 2, 29, 0);
    assert_eq!(bucket_date(leap, unit, None, TimeBucket::Monthly), Ok(day(2024, 2, 1)));
    let before_epoch = millis(1969, 12, 31, 23);
    assert_eq!(bucket_date(before_epoch, unit, None, TimeBucket::Monthly), Ok(day(1969, 12, 1)));
    assert_eq!(bucket_date(before_epoch, unit, None, TimeBucket::Weekly), Ok(day(1970, 1, 4)));
}
