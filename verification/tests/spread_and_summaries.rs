use ferric_alpha::report::distribution::event_distribution;
use ferric_alpha::performance::alpha_beta::{check_factor_return_keys, FactorReturnKey};
use ferric_alpha::performance::cumulative::{check_return_keys, ReturnKey, ReturnKeyCheck};
use ferric_alpha::performance::spread::{check_quantile_pair, spread_pairs, SpreadPair, SpreadRow};
use ferric_alpha::performance::{MeanReturnByQuantileOptions, WeightOptions};
use ferric_alpha::report::quantiles::{quantile_members, QuantileMembers, StatRow};
use ferric_alpha::report::returns_sheet::{returns_plan, PeriodInfo};
use ferric_alpha::report::ReturnsTearSheetOptions;
use ferric_alpha::FerricAlphaError;

fn row(quantile: u32, cell: u64) -> SpreadRow {
    SpreadRow { quantile: Some(quantile), cell: Some(cell), finite: true }
}

fn missing(quantile: u32, cell: u64) -> SpreadRow {
    SpreadRow { quantile: Some(quantile), cell: Some(cell), finite: false }
}

fn spread_error(reason: &'static str) -> FerricAlphaError {
    FerricAlphaError::InvalidInput { operation: "compute_mean_returns_spread", reason }
}

#[test]
fn spread_pairs_match_cells_of_both_quantiles() {
    // Cells 7 and 9, quantiles 1 (lower) and 5 (upper); quantile 3 is ignored.
    let rows = vec![row(1, 7), row(5, 7), row(3, 7), row(5, 9), row(1, 9)];
    let pairs = spread_pairs(&rows, None, 5, 1).unwrap();
    assert_eq!(
        pairs,
        vec![
            SpreadPair { upper: 1, lower: 0, upper_error: None, lower_error: None },
            SpreadPair { upper: 3, lower: 4, upper_error: None, lower_error: None },
        ]
    );
}

#[test]
fn spread_pairs_find_standard_errors_in_the_error_frame() {
    let rows = vec![row(1, 7), row(5, 7)];
    let errors = vec![row(5, 7), missing(1, 7)];
    let pairs = spread_pairs(&rows, Some(&errors), 5, 1).unwrap();
    assert_eq!(pairs, vec![SpreadPair { upper: 1, lower: 0, upper_error: Some(0), lower_error: None }]);
}

#[test]
fn spread_pairs_refuse_equal_quantiles_duplicates_and_missing_sides() {
    assert_eq!(check_quantile_pair(2, 2), Err(spread_error("upper and lower quantiles must differ")));
    assert_eq!(check_quantile_pair(2, 1), Ok(()));
    assert_eq!(
        spread_pairs(&[row(1, 7)], None, 3, 3),
        Err(spread_error("upper and lower quantiles must differ"))
    );
    assert_eq!(
        spread_pairs(&[row(1, 7), row(1, 7), row(5, 7)], None, 5, 1),
        Err(FerricAlphaError::DuplicateKey)
    );
    // A repeated key is no duplicate when one of the values is not finite.
    let rows = vec![row(1, 7), missing(1, 7), row(5, 7)];
    assert!(spread_pairs(&rows, None, 5, 1).is_ok());
    let errors = vec![row(5, 7), row(5, 7)];
    assert_eq!(
        spread_pairs(&[row(1, 7), row(5, 7)], Some(&errors), 5, 1),
        Err(FerricAlphaError::DuplicateKey)
    );
    assert_eq!(
        spread_pairs(&[row(1, 7), row(5, 7), row(5, 8)], None, 5, 1),
        Err(spread_error("upper and lower quantile keys must both exist"))
    );
    // Rows are read in order: a missing quantile or period after a repeat is not reached.
    let rows = vec![
        row(1, 7),
        row(1, 7),
        SpreadRow { quantile: None, cell: Some(7), finite: true },
    ];
    assert_eq!(spread_pairs(&rows, None, 5, 1), Err(FerricAlphaError::DuplicateKey));
    let rows = vec![row(1, 7), SpreadRow { quantile: None, cell: Some(7), finite: true }, row(1, 7)];
    assert_eq!(
        spread_pairs(&rows, None, 5, 1),
        Err(spread_error("factor_quantile must not be null"))
    );
    let rows = vec![SpreadRow { quantile: Some(1), cell: None, finite: false }];
    assert_eq!(spread_pairs(&rows, None, 5, 1), Err(spread_error("period must not be null")));
    // A lower value that is not finite leaves its cell without the lower side.
    let rows = vec![missing(1, 7), row(5, 7)];
    assert_eq!(
        spread_pairs(&rows, None, 5, 1),
        Err(spread_error("upper and lower quantile keys must both exist"))
    );
}

fn key(date: i64, period: Option<&str>, period_id: u64) -> ReturnKey {
    ReturnKey { date, period: period.map(str::to_string), period_id }
}

fn returns_error(reason: &'static str) -> FerricAlphaError {
    FerricAlphaError::InvalidInput { operation: "cumulative_returns", reason }
}

fn passed(starts: Vec<bool>) -> ReturnKeyCheck {
    ReturnKeyCheck { starts, failure: None }
}

fn failed(starts: Vec<bool>, index: usize, reason: &'static str) -> ReturnKeyCheck {
    ReturnKeyCheck { starts, failure: Some((index, returns_error(reason))) }
}

#[test]
fn return_keys_mark_where_each_period_starts() {
    let rows = vec![
        key(1, Some("1D"), 0),
        key(2, Some("1D"), 0),
        key(1, Some("5D"), 1),
        key(2, Some("5D"), 1),
    ];
    assert_eq!(check_return_keys(&rows, true), passed(vec![false, false, true, false]));
    let rows = vec![key(1, None, 0), key(2, None, 0)];
    assert_eq!(check_return_keys(&rows, false), passed(vec![false, false]));
    assert_eq!(check_return_keys(&[], true), passed(vec![]));
}

#[test]
fn return_keys_report_the_first_row_that_breaks_a_rule() {
    let rows = vec![key(1, Some("1D"), 0), key(2, None, 1), key(1, Some("1D"), 0)];
    assert_eq!(
        check_return_keys(&rows, true),
        failed(vec![false], 1, "period must not contain null values")
    );
    let rows = vec![key(1, Some("1D"), 0), key(2, Some("05D"), 1)];
    assert_eq!(
        check_return_keys(&rows, true),
        failed(vec![false], 1, "period must be a positive daily count")
    );
    let rows = vec![key(1, Some("1D"), 0), key(2, Some("1D"), 0), key(1, Some("1D"), 0)];
    assert_eq!(
        check_return_keys(&rows, true),
        failed(vec![false, false], 2, "return series keys must be unique")
    );
    // Without a period column only the dates must be unique.
    let rows = vec![key(1, None, 0), key(1, None, 0)];
    assert_eq!(
        check_return_keys(&rows, false),
        failed(vec![false], 1, "return series keys must be unique")
    );
}

fn stat(quantile: Option<u32>, has_factor: bool) -> StatRow {
    StatRow { quantile, has_factor }
}

#[test]
fn quantile_members_group_factor_rows_by_positive_quantile() {
    let rows = vec![
        stat(Some(2), true),
        stat(Some(1), true),
        stat(Some(0), true),
        stat(None, true),
        stat(Some(2), false),
        stat(Some(3), false),
        stat(Some(2), true),
    ];
    let members = quantile_members(&rows);
    assert_eq!(
        members,
        vec![
            QuantileMembers { quantile: 1, rows: vec![1] },
            QuantileMembers { quantile: 2, rows: vec![0, 6] },
            QuantileMembers { quantile: 3, rows: vec![] },
        ]
    );
    let total: usize = members.iter().map(|m| m.rows.len()).sum();
    assert_eq!(total, 3);
    assert!(quantile_members(&[]).is_empty());
}

fn period(label: &str, observations: u32) -> PeriodInfo {
    PeriodInfo { label: label.to_string(), observations }
}

#[test]
fn returns_plan_rescales_to_the_shortest_period_and_spans_the_quantiles() {
    let periods = vec![period("5D", 5), period("1D", 1), period("10D", 10)];
    let plan = returns_plan(&periods, &[1, 2, 5], ReturnsTearSheetOptions::default()).unwrap();
    assert_eq!(plan.base, 1);
    assert_eq!((plan.lower_quantile, plan.upper_quantile), (1, 5));
    assert_eq!(plan.weight_options, WeightOptions::default());
    assert_eq!(plan.mean_options, MeanReturnByQuantileOptions::default());
    assert!(plan.one_day_tables);
    assert!(!plan.group_table);

    let options = ReturnsTearSheetOptions { long_short: false, group_neutral: true, by_group: true };
    let plan = returns_plan(&[period("3D", 3), period("2D", 2)], &[4], options).unwrap();
    assert_eq!(plan.base, 2);
    assert_eq!((plan.lower_quantile, plan.upper_quantile), (4, 4));
    assert_eq!(
        plan.weight_options,
        WeightOptions { demeaned: false, group_adjust: true, equal_weight: false }
    );
    assert!(!plan.mean_options.demeaned && plan.mean_options.group_adjust);
    assert!(plan.group_table && !plan.one_day_tables);

    assert_eq!(
        returns_plan(&[period("1D", 1)], &[], ReturnsTearSheetOptions::default()),
        Err(FerricAlphaError::InsufficientData { operation: "create_returns_tear_sheet_data" })
    );
}

fn return_key(date: Option<i64>, period: Option<&str>) -> FactorReturnKey {
    FactorReturnKey { date, period: period.map(str::to_string) }
}

fn alpha_beta_error(reason: &'static str) -> FerricAlphaError {
    FerricAlphaError::InvalidInput { operation: "factor_alpha_beta", reason }
}

#[test]
fn factor_return_keys_are_checked_row_by_row() {
    let allowed = vec!["1D".to_string(), "5D".to_string()];
    let rows = vec![return_key(Some(1), Some("1D")), return_key(Some(1), Some("5D"))];
    assert_eq!(check_factor_return_keys(&rows, &allowed), Ok(()));
    assert_eq!(check_factor_return_keys(&[], &allowed), Ok(()));
    let rows = vec![return_key(Some(1), Some("1D")), return_key(None, None)];
    assert_eq!(check_factor_return_keys(&rows, &allowed), Err(FerricAlphaError::NullKey));
    let rows = vec![return_key(Some(1), None), return_key(None, None)];
    assert_eq!(
        check_factor_return_keys(&rows, &allowed),
        Err(alpha_beta_error("period must not be null"))
    );
    let rows = vec![return_key(Some(1), Some("10D"))];
    assert_eq!(
        check_factor_return_keys(&rows, &allowed),
        Err(alpha_beta_error("period must exist in factor data"))
    );
    // The first row that breaks a rule decides: here the repeat comes before the unknown period.
    let rows = vec![
        return_key(Some(1), Some("5D")),
        return_key(Some(1), Some("5D")),
        return_key(Some(2), Some("3D")),
    ];
    assert_eq!(check_factor_return_keys(&rows, &allowed), Err(FerricAlphaError::DuplicateKey));
}

#[test]
fn event_distribution_spreads_dates_over_equal_bins() {
    // Dates 0..=10 over two bins: [0, 5) and [5, 10], the last bin including its end.
    let dates = vec![10, 0, 4, 5, 7, 5];
    let bins = event_distribution(&dates, 2).unwrap();
    assert_eq!(bins.starts, vec![0, 5]);
    assert_eq!(bins.ends, vec![5, 10]);
    assert_eq!(bins.counts, vec![2, 4]);
    assert_eq!(bins.counts.iter().sum::<u64>(), dates.len() as u64);
    // Steps are rounded down: a span of 10 over 3 bins gives edges 0, 3, 6 and the end 10.
    let bins = event_distribution(&[0, 10, 3, 6, 9], 3).unwrap();
    assert_eq!(bins.starts, vec![0, 3, 6]);
    assert_eq!(bins.ends, vec![3, 6, 10]);
    assert_eq!(bins.counts, vec![1, 1, 3]);
    // Equal dates make one bin whatever is asked.
    let bins = event_distribution(&[7, 7, 7], 50).unwrap();
    assert_eq!((bins.starts, bins.ends, bins.counts), (vec![7], vec![7], vec![3]));
    assert_eq!(
        event_distribution(&[], 5),
        Err(FerricAlphaError::InsufficientData { operation: "create_event_study_tear_sheet_data" })
    );
    assert_eq!(
        event_distribution(&[i64::MIN, i64::MAX], 5),
        Err(FerricAlphaError::InvalidInput {
            operation: "create_event_study_tear_sheet_data",
            reason: "date range overflow",
        })
    );
}
