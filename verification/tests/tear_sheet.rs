use ferric_alpha::report::tear_sheet::{unique_table_ids, validate_unique_full_ids};
use ferric_alpha::report::{
    ColumnRole, InformationReportData, ReportColumn, ReportColumnData, ReportKind, ReportMetadata,
    ReportTable, ReportTimeUnit, ReturnsReportData, TearSheetData, TurnoverReportData,
    TurnoverTearSheetData, TurnoverTearSheetOptions, CONTRACT_VERSION,
};
use ferric_alpha::FerricAlphaError;

fn table(id: &str) -> ReportTable {
    let column = ReportColumn::new(
        "n".to_string(),
        "N".to_string(),
        ColumnRole::Measure,
        None,
        ReportColumnData::UInt64(vec![Some(1)]),
    );
    ReportTable::new(id.to_string(), id.to_string(), vec![], vec![column]).unwrap()
}

fn metadata(version: &str, kind: ReportKind) -> ReportMetadata {
    ReportMetadata::from_parts(
        version.to_string(),
        kind,
        1,
        Some(1),
        Some(1),
        ReportTimeUnit::Microseconds,
        None,
        vec!["1D".to_string()],
        vec![1],
        vec![],
    )
}

fn turnover_data(series_id: &str) -> TurnoverReportData {
    TurnoverReportData {
        mean_by_quantile: table("turnover.mean_by_quantile"),
        mean_rank_autocorrelation: table("turnover.mean_rank_autocorrelation"),
        quantile_series: table(series_id),
        rank_autocorrelation_series: table("turnover.rank_autocorrelation_series"),
    }
}

fn turnover_sheet(version: &str, kind: ReportKind, series_id: &str) -> TearSheetData {
    TearSheetData::Turnover(TurnoverTearSheetData {
        metadata: metadata(version, kind),
        options: TurnoverTearSheetOptions::default(),
        data: turnover_data(series_id),
    })
}

fn from_json_error(reason: &'static str) -> Result<(), FerricAlphaError> {
    Err(FerricAlphaError::InvalidReport { operation: "TearSheetData::from_json", reason })
}

#[test]
fn tear_sheets_list_and_find_their_tables() {
    let sheet = turnover_sheet(CONTRACT_VERSION, ReportKind::Turnover, "turnover.quantile_series");
    assert_eq!(sheet.validate(), Ok(()));
    assert_eq!(sheet.kind(), ReportKind::Turnover);
    assert_eq!(
        sheet.table_ids(),
        vec![
            "turnover.mean_by_quantile",
            "turnover.mean_rank_autocorrelation",
            "turnover.quantile_series",
            "turnover.rank_autocorrelation_series",
        ]
    );
    assert_eq!(sheet.tables().len(), 4);
    assert_eq!(sheet.table("turnover.quantile_series").map(ReportTable::id), Some("turnover.quantile_series"));
    assert!(sheet.table("returns.summary").is_none());
    assert_eq!(sheet.metadata().report_kind(), ReportKind::Turnover);
}

#[test]
fn tear_sheet_checks_run_in_order() {
    assert_eq!(
        turnover_sheet("v0", ReportKind::Summary, "x").validate(),
        Err(FerricAlphaError::ReportVersion { expected: CONTRACT_VERSION, actual: "v0".to_string() })
    );
    assert_eq!(
        turnover_sheet(CONTRACT_VERSION, ReportKind::Summary, "x").validate(),
        from_json_error("report kind/body mismatch")
    );
    assert_eq!(
        turnover_sheet(CONTRACT_VERSION, ReportKind::Turnover, "turnover.other").validate(),
        from_json_error("unexpected table id")
    );
}

fn returns_data(extra: Option<&str>) -> ReturnsReportData {
    ReturnsReportData {
        summary: table("returns.summary"),
        mean_by_quantile: table("returns.mean_by_quantile"),
        daily_by_quantile: table("returns.daily_by_quantile"),
        daily_spread: table("returns.daily_spread"),
        factor_returns: table("returns.factor_returns"),
        group_mean_by_quantile: extra.map(table),
        factor_cumulative_1d: None,
        quantile_cumulative_1d: None,
    }
}

fn information_data() -> InformationReportData {
    InformationReportData {
        summary: table("information.summary"),
        ic_by_date: table("information.ic_by_date"),
        ic_rolling: table("information.ic_rolling"),
        ic_monthly: table("information.ic_monthly"),
        ic_by_group: None,
        qq_normal: table("information.qq_normal"),
    }
}

#[test]
fn full_tear_sheet_ids_must_differ() {
    let statistics = table("quantile.statistics");
    assert_eq!(
        validate_unique_full_ids(&statistics, &returns_data(None), &information_data(), &turnover_data("turnover.quantile_series")),
        Ok(())
    );
    assert_eq!(
        validate_unique_full_ids(
            &statistics,
            &returns_data(Some("information.summary")),
            &information_data(),
            &turnover_data("turnover.quantile_series")
        ),
        Err(FerricAlphaError::InvalidReport {
            operation: "create_full_tear_sheet_data",
            reason: "duplicate table id"
        })
    );
    let a = table("a.b");
    let b = table("a.c");
    assert!(unique_table_ids(&[&a, &b]));
    assert!(!unique_table_ids(&[&a, &b, &a]));
    assert!(unique_table_ids(&[]));
}
