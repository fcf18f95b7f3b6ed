use ferric_alpha::data::{check_factor_columns, ColumnState};
use ferric_alpha::grouping::grouped_indexes;
use ferric_alpha::performance::dates::{try_bucket_date, DAY_MILLIS, MAX_DAY, MIN_DAY};
use ferric_alpha::performance::events::{Event, EventRow, PartitionKey};
use ferric_alpha::performance::imputed::imputed_cells;
use ferric_alpha::performance::frame::ColumnInfo;
use ferric_alpha::performance::universe::{universe_by_date, universe_by_date_group, Universes};
use ferric_alpha::performance::TimeBucket;
use ferric_alpha::report::metadata::metadata_from_columns;
use ferric_alpha::report::options::parse_period_label;
use ferric_alpha::report::table::{DisplayFormat, DisplayUnit};
use ferric_alpha::report::{FactorKey, ReportKind, ReportTimeUnit};
use ferric_alpha::{FerricAlphaError, Period};

fn row(date: i64, asset: u64, group: Option<u64>) -> EventRow {
    EventRow { date, asset, group, quantile: Some(1) }
}

fn column(name: &str, is_float64: bool) -> ColumnInfo {
    let dtype = if is_float64 { "f64" } else { "str" };
    ColumnInfo { name: name.to_string(), is_float64, dtype: dtype.to_string() }
}

#[test]
fn rows_group_by_key_in_key_order() {
    let keys = [(2, 0, 0, 0), (1, 5, 0, 0), (2, 0, 0, 0), (1, 3, 0, 0), (1, 5, 0, 0)];
    let groups = grouped_indexes(&keys);
    assert_eq!(groups.keys, vec![(1, 3, 0, 0), (1, 5, 0, 0), (2, 0, 0, 0)]);
    assert_eq!(groups.members, vec![vec![3], vec![1, 4], vec![0, 2]]);
    let empty = grouped_indexes(&[]);
    assert!(empty.keys.is_empty() && empty.members.is_empty());
}

#[test]
fn grouping_orders_keys_by_each_place_in_turn() {
    let keys = [(1, 2, 3, 5), (1, 2, 3, 4), (1, 2, -3, 9), (-1, 9, 9, 9)];
    let groups = grouped_indexes(&keys);
    assert_eq!(groups.keys, vec![(-1, 9, 9, 9), (1, 2, -3, 9), (1, 2, 3, 4), (1, 2, 3, 5)]);
    assert_eq!(groups.members, vec![vec![3], vec![2], vec![1], vec![0]]);
}

#[test]
fn universes_hold_each_event_dates_assets_once() {
    let rows = [row(10, 7, Some(1)), row(10, 3, Some(2)), row(11, 5, None), row(10, 3, Some(1)), row(12, 1, Some(1))];
    let by_date = universe_by_date(&rows, &[10, 12]);
    assert_eq!(by_date.keys, vec![(10, 0, 0, 0), (12, 0, 0, 0)]);
    assert_eq!(by_date.assets, vec![vec![3, 7], vec![1]]);
    let by_group = universe_by_date_group(&rows, &[10, 11]);
    assert_eq!(by_group.keys, vec![(10, 1, 0, 0), (10, 2, 0, 0)]);
    assert_eq!(by_group.assets, vec![vec![3, 7], vec![3]]);
    assert!(universe_by_date(&rows, &[]).keys.is_empty());
}

#[test]
fn factor_columns_are_checked_for_presence_then_type() {
    let present = ColumnState::Present;
    let missing = ColumnState::Missing;
    let wrong = |actual: &str| ColumnState::Mistyped(actual.to_string());
    assert_eq!(check_factor_columns(&present, &present, &present, &missing), Ok(()));
    assert_eq!(check_factor_columns(&present, &present, &present, &present), Ok(()));
    assert_eq!(
        check_factor_columns(&wrong("i64"), &missing, &present, &present),
        Err(FerricAlphaError::MissingColumn("asset"))
    );
    assert_eq!(
        check_factor_columns(&present, &present, &missing, &wrong("i64")),
        Err(FerricAlphaError::MissingColumn("factor"))
    );
    assert_eq!(
        check_factor_columns(&missing, &missing, &missing, &missing),
        Err(FerricAlphaError::MissingColumn("date"))
    );
    assert_eq!(
        check_factor_columns(&present, &wrong("i64"), &wrong("str"), &present),
        Err(FerricAlphaError::InvalidDtype { column: "asset".to_string(), expected: "String", actual: "i64".to_string() })
    );
    assert_eq!(
        check_factor_columns(&wrong("str"), &present, &present, &present),
        Err(FerricAlphaError::InvalidDtype {
            column: "date".to_string(),
            expected: "Datetime",
            actual: "str".to_string()
        })
    );
    assert_eq!(
        check_factor_columns(&present, &present, &present, &wrong("u32")),
        Err(FerricAlphaError::InvalidDtype { column: "group".to_string(), expected: "String", actual: "u32".to_string() })
    );
}

#[test]
fn metadata_periods_are_forward_labels_by_count() {
    let columns = [
        column("date", false),
        column("forward_return_10D", true),
        column("forward_return_1D", true),
        column("factor", true),
        column("forward_return_5D", true),
    ];
    let rows = [
        FactorKey { date: 5, quantile: Some(2), group: None },
        FactorKey { date: 3, quantile: Some(1), group: Some("b".to_string()) },
    ];
    let metadata =
        metadata_from_columns(&columns, &rows, ReportKind::Summary, ReportTimeUnit::Milliseconds, None).unwrap();
    assert_eq!(metadata.periods(), &["1D".to_string(), "5D".to_string(), "10D".to_string()]);
    assert_eq!(metadata.source_rows(), 2);
    assert_eq!(metadata.date_start(), Some(3));
    assert_eq!(metadata.date_end(), Some(5));
    assert_eq!(metadata.quantiles(), &[1, 2]);
    assert_eq!(metadata.groups(), &["b".to_string()]);
    let none = metadata_from_columns(&columns[..1], &[], ReportKind::Full, ReportTimeUnit::Nanoseconds, None).unwrap();
    assert!(none.periods().is_empty());
}

#[test]
fn metadata_fails_as_period_discovery_does() {
    let columns = [column("forward_return_1D", true), column("forward_return_01D", true)];
    assert_eq!(
        metadata_from_columns(&columns, &[], ReportKind::Summary, ReportTimeUnit::Milliseconds, None).unwrap_err(),
        FerricAlphaError::InvalidInput {
            operation: "discover_forward_periods",
            reason: "forward return period must be a positive daily count"
        }
    );
    let columns = [column("forward_return_2D", false)];
    assert!(matches!(
        metadata_from_columns(&columns, &[], ReportKind::Summary, ReportTimeUnit::Milliseconds, None),
        Err(FerricAlphaError::InvalidDtype { expected: "Float64", .. })
    ));
}

#[test]
fn bucketing_stays_inside_chronos_range() {
    let unit = ReportTimeUnit::Milliseconds;
    let last = MAX_DAY * DAY_MILLIS;
    let first = MIN_DAY * DAY_MILLIS;
    let hour = DAY_MILLIS / 24;
    assert_eq!(try_bucket_date(last, unit, None, TimeBucket::Daily), Some(Ok(MAX_DAY as i32)));
    assert_eq!(try_bucket_date(last, unit, Some("UTC"), TimeBucket::Monthly), Some(Ok(MAX_DAY as i32 - 30)));
    assert_eq!(try_bucket_date(last, unit, None, TimeBucket::Weekly), None);
    let sunday = last - DAY_MILLIS;
    assert_eq!(try_bucket_date(sunday, unit, Some("UTC"), TimeBucket::Weekly), Some(Ok(MAX_DAY as i32 - 1)));
    assert_eq!(try_bucket_date(last + 20 * hour, unit, Some("Asia/Tokyo"), TimeBucket::Daily), None);
    assert_eq!(try_bucket_date(last, unit, Some("Asia/Tokyo"), TimeBucket::Daily), Some(Ok(MAX_DAY as i32)));
    assert_eq!(try_bucket_date(first, unit, Some("America/New_York"), TimeBucket::Daily), None);
    assert_eq!(try_bucket_date(first, unit, None, TimeBucket::Monthly), Some(Ok(MIN_DAY as i32)));
    assert_eq!(
        try_bucket_date(i64::MAX, unit, Some("UTC"), TimeBucket::Weekly),
        Some(Err(FerricAlphaError::InvalidInput {
            operation: "bucket_date",
            reason: "datetime value is outside supported range"
        }))
    );
}

#[test]
fn parsed_label_is_the_period_of_its_count() {
    assert_eq!(parse_period_label("5D"), Ok(Period::new(5).unwrap()));
    assert_eq!(Period::new(5), Period::new(5));
    assert_ne!(Period::new(5).unwrap(), Period::new(6).unwrap());
}

#[test]
fn display_formats_are_equal_exactly_when_unit_and_decimals_are() {
    assert_eq!(DisplayFormat::new(DisplayUnit::Count, 0), DisplayFormat::new(DisplayUnit::Count, 0));
    assert_ne!(DisplayFormat::new(DisplayUnit::Count, 0), DisplayFormat::new(DisplayUnit::Count, 1));
}

#[test]
fn imputed_cells_count_the_returns_each_offset_reads() {
    let event = |asset: u64| Event { date: 10, session_index: 1, asset, group: Some(0), quantile: 1 };
    let events = [event(0), event(1)];
    let keys = [PartitionKey { date: 10, quantile: 1, group: None }];
    let missing = vec![vec![false, false, true], vec![false, true, false]];
    let by_date = Universes { keys: vec![(10, 0, 0, 0)], assets: vec![vec![0, 1, 2]] };
    let by_group = Universes { keys: vec![(10, 0, 0, 0)], assets: vec![vec![0, 1]] };
    let cells = |before: u32, demeaned: bool, group_adjust: bool| {
        imputed_cells(&events, &keys, &[1], &missing, &by_date, &by_group, 3, before, 1, demeaned, group_adjust)
    };
    assert_eq!(cells(1, false, false), Some(vec![0, 1, 1]));
    assert_eq!(cells(1, true, false), Some(vec![1, 3, 3]));
    assert_eq!(cells(1, false, true), Some(vec![0, 3, 3]));
    assert_eq!(cells(1, true, true), Some(vec![0, 3, 3]));
    assert_eq!(cells(2, false, false), Some(vec![0, 0, 1, 1]));
    assert_eq!(imputed_cells(&[], &[], &[], &missing, &by_date, &by_group, 3, 0, 0, true, false), Some(vec![0]));
}
