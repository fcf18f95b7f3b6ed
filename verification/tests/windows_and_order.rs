use ferric_alpha::clean::durations_fit_u64;
use ferric_alpha::forward_returns::period_labels_fit;
use ferric_alpha::performance::common_start::{window_targets, WindowTarget};
use ferric_alpha::report::metadata::check_contract_version;
use ferric_alpha::report::row_order::{stable_row_order, RowSortKey};
use ferric_alpha::report::{ReportTimeUnit, CONTRACT_VERSION};
use ferric_alpha::{FerricAlphaError, Period, TradingCalendar};

fn key(date: Option<i64>, quantile: Option<u32>, label: Option<&str>, period: &str) -> RowSortKey {
    RowSortKey { date, quantile, label: label.map(str::to_string), period: period.to_string() }
}

fn target(event: usize, offset: i32, session: usize) -> WindowTarget {
    WindowTarget { event, offset, session }
}

#[test]
fn rows_sort_by_key_and_keep_ties_in_place() {
    let keys = [
        key(Some(2), Some(1), None, "1D"),
        key(Some(1), Some(2), None, "5D"),
        key(Some(1), Some(2), None, "10D"),
        key(None, Some(9), None, "1D"),
        key(Some(2), Some(1), None, "1D"),
        key(Some(1), None, Some("b"), "1D"),
        key(Some(1), None, Some("a"), "1D"),
    ];
    assert_eq!(stable_row_order(&keys), vec![3, 6, 5, 2, 1, 0, 4]);
    assert!(stable_row_order(&[]).is_empty());
}

#[test]
fn windows_reach_the_sessions_the_calendar_holds() {
    let calendar = [10, 20, 30, 40];
    let targets = window_targets(&calendar, &[20, 25, 40], 1, 1);
    assert_eq!(targets, vec![target(0, -1, 0), target(0, 0, 1), target(0, 1, 2), target(2, -1, 2), target(2, 0, 3)]);
    assert_eq!(window_targets(&calendar, &[10], 2, 0), vec![target(0, 0, 0)]);
    assert!(window_targets(&calendar, &[], 3, 3).is_empty());
}

#[test]
fn calendar_clone_keeps_its_zone() {
    let calendar = TradingCalendar::new(vec![1, 2], Some("Asia/Tokyo".to_string())).unwrap();
    let copy = calendar.clone();
    assert_eq!(copy, calendar);
    assert_eq!(copy.timezone(), Some("Asia/Tokyo"));
}

#[test]
fn labels_fit_only_when_the_labelled_spans_do() {
    let one = [Period::new(1).unwrap()];
    let daily = TradingCalendar::new(vec![i64::MIN, 0, i64::MAX], None).unwrap();
    assert!(!period_labels_fit(&daily, &one, ReportTimeUnit::Microseconds));
    let intraday = TradingCalendar::new(vec![-5_000_000_000_000_000_000, -4_999_999_999_999_999_000, 0, 5_000_000_000_000_000_000], None).unwrap();
    assert!(period_labels_fit(&intraday, &one, ReportTimeUnit::Microseconds));
    assert!(period_labels_fit(&intraday, &[Period::new(2).unwrap()], ReportTimeUnit::Microseconds));
    assert!(!period_labels_fit(&intraday, &[Period::new(3).unwrap()], ReportTimeUnit::Microseconds));
    assert!(period_labels_fit(&intraday, &[Period::new(5).unwrap()], ReportTimeUnit::Microseconds));
    let daily_wide = TradingCalendar::new(vec![-5_000_000_000_000_000_000, 0, 5_000_000_000_000_000_000], None).unwrap();
    assert!(period_labels_fit(&daily_wide, &[Period::new(2).unwrap()], ReportTimeUnit::Milliseconds));
}

#[test]
fn durations_fit_unless_a_label_overflows() {
    let names = |list: &[&str]| list.iter().map(|name| name.to_string()).collect::<Vec<_>>();
    assert!(durations_fit_u64(&names(&["date", "forward_return_5D", "forward_return_30m"])));
    assert!(durations_fit_u64(&names(&["forward_return_18446744073709551615ms_x"])));
    assert!(!durations_fit_u64(&names(&["forward_return_1D", "forward_return_18446744073709551615ms"])));
    assert!(!durations_fit_u64(&names(&["forward_return_213503983D"])));
    assert!(durations_fit_u64(&names(&["forward_return_213503982D"])));
}

#[test]
fn contract_version_is_checked() {
    assert_eq!(check_contract_version(CONTRACT_VERSION), Ok(()));
    assert_eq!(
        check_contract_version("v0"),
        Err(FerricAlphaError::ReportVersion { expected: CONTRACT_VERSION, actual: "v0".to_string() })
    );
}
