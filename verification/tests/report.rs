use ferric_alpha::report::metadata::validate_metadata;
use ferric_alpha::report::options::{parse_optional_periods, parse_period_label, serialize_periods};
use ferric_alpha::report::table::valid_table_id;
use ferric_alpha::report::{
    validate_table, ColumnRole, DisplayFormat, DisplayUnit, EventStudyTearSheetOptions, FactorKey,
    FullTearSheetOptions, InformationTearSheetOptions, ReportColumn, ReportColumnData, ReportKind,
    ReportMetadata, ReportTable, ReportTimeUnit, ReturnsTearSheetOptions, SummaryTearSheetOptions,
    TurnoverTearSheetOptions, CONTRACT_VERSION,
};
use ferric_alpha::{FerricAlphaError, Period};

fn key(date: i64, quantile: Option<u32>, group: Option<&str>) -> FactorKey {
    FactorKey { date, quantile, group: group.map(|g| g.to_string()) }
}

#[test]
fn metadata_summarizes_factor_rows() {
    let rows = [
        key(30, Some(2), Some("tech")),
        key(10, Some(0), None),
        key(20, Some(1), Some("energy")),
        key(20, Some(2), Some("tech")),
    ];
    let metadata = ReportMetadata::from_rows(
        &rows,
        ReportKind::Returns,
        ReportTimeUnit::Microseconds,
        Some("UTC".to_string()),
        vec!["1D".to_string()],
    );
    assert_eq!(metadata.contract_version(), CONTRACT_VERSION);
    assert_eq!(metadata.report_kind(), ReportKind::Returns);
    assert_eq!(metadata.source_rows(), 4);
    assert_eq!(metadata.date_start(), Some(10));
    assert_eq!(metadata.date_end(), Some(30));
    assert_eq!(metadata.date_time_unit(), ReportTimeUnit::Microseconds);
    assert_eq!(metadata.date_timezone(), Some("UTC"));
    assert_eq!(metadata.periods(), &["1D".to_string()]);
    assert_eq!(metadata.quantiles(), &[1, 2]);
    assert_eq!(metadata.groups(), &["energy".to_string(), "tech".to_string()]);

    let empty = ReportMetadata::from_rows(&[], ReportKind::Summary, ReportTimeUnit::Nanoseconds, None, vec![]);
    assert_eq!(empty.source_rows(), 0);
    assert_eq!(empty.date_start(), None);
    assert_eq!(empty.date_end(), None);
    assert!(empty.quantiles().is_empty() && empty.groups().is_empty());
}

#[test]
fn stored_metadata_is_checked() {
    let stored = |version: &str, kind| {
        ReportMetadata::from_parts(
            version.to_string(),
            kind,
            3,
            Some(1),
            Some(2),
            ReportTimeUnit::Milliseconds,
            None,
            vec![],
            vec![1],
            vec![],
        )
    };
    assert_eq!(validate_metadata(&stored(CONTRACT_VERSION, ReportKind::Full), ReportKind::Full), Ok(()));
    assert_eq!(
        validate_metadata(&stored(CONTRACT_VERSION, ReportKind::Full), ReportKind::Turnover),
        Err(FerricAlphaError::InvalidReport {
            operation: "TearSheetData::from_json",
            reason: "report kind/body mismatch"
        })
    );
    assert_eq!(
        validate_metadata(&stored("v0", ReportKind::Full), ReportKind::Full),
        Err(FerricAlphaError::ReportVersion { expected: CONTRACT_VERSION, actual: "v0".to_string() })
    );
}

#[test]
fn period_labels_read_back() {
    assert_eq!(parse_period_label("5D").map(Period::count), Ok(5));
    assert_eq!(parse_period_label("5"), Err("period must end with D".to_string()));
    assert_eq!(parse_period_label("D"), Err("period must be a positive daily count".to_string()));
    assert_eq!(parse_period_label("05D"), Err("period must be a positive daily count".to_string()));
    assert_eq!(parse_period_label("x5D"), Err("period must be numeric".to_string()));
    assert_eq!(parse_period_label("99999999999D"), Err("period must be numeric".to_string()));
}

#[test]
fn serialized_periods_read_back_unchanged() {
    let periods = Some(vec![Period::new(1).unwrap(), Period::new(22).unwrap()]);
    let labels = serialize_periods(&periods);
    assert_eq!(labels, Some(vec!["1D".to_string(), "22D".to_string()]));
    assert_eq!(parse_optional_periods(labels), Ok(periods));
    assert_eq!(serialize_periods(&None), None);
    assert_eq!(parse_optional_periods(None), Ok(None));
    assert_eq!(
        parse_optional_periods(Some(vec!["1D".to_string(), "2".to_string(), "x".to_string()])),
        Err("period must end with D".to_string())
    );
}

#[test]
fn tear_sheet_option_defaults_and_conversions() {
    assert_eq!(
        ReturnsTearSheetOptions::default(),
        ReturnsTearSheetOptions { long_short: true, group_neutral: false, by_group: false }
    );
    assert_eq!(
        InformationTearSheetOptions::default(),
        InformationTearSheetOptions { group_neutral: false, by_group: false, rolling_window: 22 }
    );
    assert_eq!(TurnoverTearSheetOptions::default(), TurnoverTearSheetOptions { periods: None });
    assert_eq!(
        EventStudyTearSheetOptions::default(),
        EventStudyTearSheetOptions { event_window: Some((5, 15)), rate_of_return: false, histogram_bins: 50 }
    );
    let periods = Some(vec![Period::new(3).unwrap()]);
    let summary = SummaryTearSheetOptions { long_short: false, group_neutral: true, turnover_periods: periods.clone() };
    assert_eq!(
        summary.returns_options(),
        ReturnsTearSheetOptions { long_short: false, group_neutral: true, by_group: false }
    );
    assert_eq!(
        summary.information_options(),
        InformationTearSheetOptions { group_neutral: true, by_group: false, rolling_window: 22 }
    );
    assert_eq!(summary.turnover_options(), TurnoverTearSheetOptions { periods: periods.clone() });
    let full = FullTearSheetOptions {
        long_short: true,
        group_neutral: false,
        by_group: true,
        turnover_periods: None,
        ic_rolling_window: 63,
    };
    assert_eq!(
        full.returns_options(),
        ReturnsTearSheetOptions { long_short: true, group_neutral: false, by_group: true }
    );
    assert_eq!(
        full.information_options(),
        InformationTearSheetOptions { group_neutral: false, by_group: true, rolling_window: 63 }
    );
    assert_eq!(full.turnover_options(), TurnoverTearSheetOptions { periods: None });
    let default_full = FullTearSheetOptions::default();
    assert_eq!(default_full.ic_rolling_window, 22);
    assert!(default_full.long_short && !default_full.by_group);
    assert!(SummaryTearSheetOptions::default().long_short);
}

#[test]
fn table_ids_are_dotted_lower_case_segments() {
    assert!(valid_table_id("returns.summary"));
    assert!(valid_table_id("returns.factor_cumulative_1d"));
    assert!(valid_table_id("quantile"));
    assert!(!valid_table_id(""));
    assert!(!valid_table_id("returns..summary"));
    assert!(!valid_table_id("returns."));
    assert!(!valid_table_id("Returns.summary"));
    assert!(!valid_table_id("returns.1d"));
    assert!(!valid_table_id("returns._x"));
    assert!(!valid_table_id("returns.x_"));
    assert!(!valid_table_id("returns.a__b"));
    assert!(!valid_table_id("returns-summary"));
}

#[test]
fn display_formats_keep_their_parts() {
    let format = DisplayFormat::new(DisplayUnit::BasisPoints, 2);
    assert_eq!(format.unit(), DisplayUnit::BasisPoints);
    assert_eq!(format.decimals(), 2);
}

fn int_column(name: &str, values: Vec<Option<i64>>) -> ReportColumn {
    ReportColumn::new(name.to_string(), name.to_uppercase(), ColumnRole::Dimension, None, ReportColumnData::Int64(values))
}

fn float_column(name: &str, values: Vec<Option<f64>>) -> ReportColumn {
    ReportColumn::new(
        name.to_string(),
        name.to_string(),
        ColumnRole::Measure,
        Some(DisplayFormat::new(DisplayUnit::Percent, 1)),
        ReportColumnData::Float64(values.into_iter().map(|v| v.map(f64::to_bits)).collect()),
    )
}

fn text_column(name: &str, values: Vec<Option<&str>>) -> ReportColumn {
    ReportColumn::new(
        name.to_string(),
        name.to_string(),
        ColumnRole::Dimension,
        None,
        ReportColumnData::String(values.into_iter().map(|v| v.map(|s| s.to_string())).collect()),
    )
}

fn table(sort_by: &[&str], columns: Vec<ReportColumn>) -> Result<ReportTable, FerricAlphaError> {
    ReportTable::new(
        "returns.summary".to_string(),
        "Summary".to_string(),
        sort_by.iter().map(|s| s.to_string()).collect(),
        columns,
    )
}

fn new_error(reason: &'static str) -> Result<ReportTable, FerricAlphaError> {
    Err(FerricAlphaError::InvalidReport { operation: "ReportTable::new", reason })
}

#[test]
fn report_tables_keep_their_columns() {
    let built = table(
        &["group", "quantile"],
        vec![
            text_column("group", vec![Some("a"), Some("a"), Some("b")]),
            int_column("quantile", vec![Some(1), Some(2), Some(1)]),
            float_column("mean", vec![Some(0.5), None, Some(-1.25)]),
        ],
    )
    .unwrap();
    assert_eq!(built.id(), "returns.summary");
    assert_eq!(built.title(), "Summary");
    assert_eq!(built.row_count(), 3);
    assert_eq!(built.sort_by(), &["group".to_string(), "quantile".to_string()]);
    assert_eq!(built.column_names(), vec!["group", "quantile", "mean"]);
    let quantile = &built.columns()[1];
    assert_eq!(quantile.name(), "quantile");
    assert_eq!(quantile.label(), "QUANTILE");
    assert_eq!(quantile.role(), ColumnRole::Dimension);
    assert_eq!(quantile.display(), None);
    assert_eq!(quantile.data().len(), 3);
    assert!(!quantile.data().is_empty());
    assert_eq!(built.columns()[2].display(), Some(&DisplayFormat::new(DisplayUnit::Percent, 1)));

    let empty = table(&[], vec![]).unwrap();
    assert_eq!(empty.row_count(), 0);
    assert!(empty.column_names().is_empty());
}

#[test]
fn report_table_checks_run_in_order() {
    assert_eq!(
        ReportTable::new("Bad".to_string(), String::new(), vec![], vec![]),
        new_error("invalid table id")
    );
    assert_eq!(
        table(&[], vec![int_column("a", vec![Some(1)]), int_column("a", vec![Some(2)])]),
        new_error("duplicate column name")
    );
    assert_eq!(
        table(&[], vec![float_column("x", vec![Some(f64::NAN)])]),
        new_error("float value is not finite")
    );
    assert_eq!(
        table(&[], vec![float_column("x", vec![Some(f64::INFINITY)]), int_column("x", vec![])]),
        new_error("float value is not finite")
    );
    assert_eq!(
        table(&[], vec![int_column("a", vec![Some(1)]), int_column("b", vec![])]),
        new_error("column lengths differ")
    );
    assert_eq!(table(&["c"], vec![int_column("a", vec![Some(1)])]), new_error("sort key missing"));
    assert_eq!(
        table(&["a"], vec![int_column("a", vec![Some(1), None])]),
        new_error("sort key contains null")
    );
    assert_eq!(
        table(&["a"], vec![int_column("a", vec![Some(2), Some(1)])]),
        new_error("rows are not sorted by sort_by")
    );
}

#[test]
fn report_tables_sort_lexicographically_by_their_keys() {
    assert!(table(
        &["g", "v"],
        vec![text_column("g", vec![Some("a"), Some("a"), Some("b")]), float_column("v", vec![Some(-2.0), Some(-0.0), Some(-5.0)])],
    )
    .is_ok());
    assert_eq!(
        table(
            &["g", "v"],
            vec![text_column("g", vec![Some("a"), Some("a")]), float_column("v", vec![Some(1.0), Some(-1.0)])],
        ),
        new_error("rows are not sorted by sort_by")
    );
    assert!(table(&["v"], vec![float_column("v", vec![Some(0.0), Some(-0.0)])]).is_ok());
    assert!(table(&["g"], vec![text_column("g", vec![Some("B"), Some("a")])]).is_ok());
    assert_eq!(
        table(&["g"], vec![text_column("g", vec![Some("ab"), Some("a")])]),
        new_error("rows are not sorted by sort_by")
    );
}

#[test]
fn stored_tables_are_checked_with_their_row_count() {
    let columns = || vec![int_column("a", vec![Some(1), Some(2)])];
    let read = validate_table("turnover.quantile_series".to_string(), "T".to_string(), 2, vec!["a".to_string()], columns()).unwrap();
    assert_eq!(read.row_count(), 2);
    assert_eq!(
        validate_table("turnover.quantile_series".to_string(), "T".to_string(), 3, vec![], columns()),
        Err(FerricAlphaError::InvalidReport {
            operation: "TearSheetData::from_json",
            reason: "row count does not match column data"
        })
    );
    assert_eq!(
        validate_table("x.".to_string(), "T".to_string(), 2, vec![], columns()),
        Err(FerricAlphaError::InvalidReport { operation: "TearSheetData::from_json", reason: "invalid table id" })
    );
}
