use ferric_alpha::forward_returns::{
    duration_label, has_subdaily_sessions, matching_session_day_label, period_labels, period_span,
    units_per_day,
};
use ferric_alpha::report::ReportTimeUnit;
use ferric_alpha::{Period, TradingCalendar};

const DAY_US: i64 = 86_400_000_000;
const HALF_HOUR_US: i64 = 1_800_000_000;

#[test]
fn day_lengths_follow_the_time_unit() {
    assert_eq!(units_per_day(ReportTimeUnit::Nanoseconds), 86_400_000_000_000);
    assert_eq!(units_per_day(ReportTimeUnit::Microseconds), DAY_US);
    assert_eq!(units_per_day(ReportTimeUnit::Milliseconds), 86_400_000);
}

#[test]
fn subdaily_sessions_are_detected() {
    assert!(!has_subdaily_sessions(&[0, DAY_US, 2 * DAY_US], DAY_US));
    assert!(has_subdaily_sessions(&[0, HALF_HOUR_US, DAY_US], DAY_US));
    assert!(!has_subdaily_sessions(&[5], DAY_US));
}

#[test]
fn period_span_starts_at_the_first_session() {
    let calendar = TradingCalendar::new(vec![10, 20, 30], None).unwrap();
    assert_eq!(period_span(&calendar, Period::new(2).unwrap()), Some((10, 30)));
    assert_eq!(period_span(&calendar, Period::new(3).unwrap()), None);
}

#[test]
fn whole_days_count_sessions_at_the_same_time_of_day() {
    let open = 9 * 3_600_000_000;
    let sessions = [open, open + HALF_HOUR_US, DAY_US + open, 3 * DAY_US + open];
    assert_eq!(
        matching_session_day_label(&sessions, open, 3 * DAY_US + open, DAY_US),
        Some("2D".to_string())
    );
    assert_eq!(matching_session_day_label(&sessions, open, open + HALF_HOUR_US, DAY_US), None);
}

#[test]
fn duration_labels_pick_the_largest_unit() {
    let sessions: Vec<i64> = (0..4).map(|k| k * HALF_HOUR_US).collect();
    let calendar = TradingCalendar::new(sessions, None).unwrap();
    assert_eq!(duration_label(&calendar, 0, HALF_HOUR_US, DAY_US), Some("30m".to_string()));
    assert_eq!(duration_label(&calendar, 0, 2 * HALF_HOUR_US, DAY_US), Some("1h".to_string()));
    assert_eq!(duration_label(&calendar, 0, 45_000_000, DAY_US), Some("45s".to_string()));
    assert_eq!(duration_label(&calendar, 0, 1_500, DAY_US), Some("1ms".to_string()));
    assert_eq!(duration_label(&calendar, 0, 2 * DAY_US + 1_000, DAY_US), Some("172800001ms".to_string()));
    assert_eq!(duration_label(&calendar, 5, 5, DAY_US), None);
}

#[test]
fn period_labels_use_days_on_daily_calendars() {
    let calendar = TradingCalendar::new(vec![0, DAY_US, 2 * DAY_US], None).unwrap();
    let periods = [Period::new(1).unwrap(), Period::new(5).unwrap()];
    assert_eq!(period_labels(&calendar, &periods, ReportTimeUnit::Microseconds), vec!["1D", "5D"]);
}

#[test]
fn period_labels_use_durations_on_intraday_calendars() {
    let sessions: Vec<i64> = (0..4).map(|k| k * HALF_HOUR_US).collect();
    let calendar = TradingCalendar::new(sessions, None).unwrap();
    let periods = [Period::new(1).unwrap(), Period::new(2).unwrap(), Period::new(9).unwrap()];
    assert_eq!(
        period_labels(&calendar, &periods, ReportTimeUnit::Microseconds),
        vec!["30m", "1h", "9D"]
    );
}

use ferric_alpha::forward_returns::forward_window;

#[test]
fn forward_windows_start_at_the_date_or_one_session_before_the_end() {
    let calendar = TradingCalendar::new(vec![1, 2, 3, 4, 5], None).unwrap();
    let three = Period::new(3).unwrap();
    assert_eq!(forward_window(&calendar, 1, three, true), Some((1, 4)));
    assert_eq!(forward_window(&calendar, 1, three, false), Some((3, 4)));
    let one = Period::new(1).unwrap();
    assert_eq!(forward_window(&calendar, 2, one, false), Some((2, 3)));
    assert_eq!(forward_window(&calendar, 3, three, true), None);
    assert_eq!(forward_window(&calendar, 7, one, true), None);
}
