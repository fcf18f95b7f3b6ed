use ferric_alpha::performance::events::{
    offset_coverage, partition_events, select_events, Event, EventRow, OffsetCoverage,
    PartitionKey,
};
use ferric_alpha::performance::frame::{discover_forward_periods, period_order, ColumnInfo, ForwardPeriod};
use ferric_alpha::performance::portfolio::{
    select_rows, validate_group_filter, validate_period_label, validate_quantile_filter,
};
use ferric_alpha::performance::positions::{
    plan_positions, sort_sessions, validate_weight_rows, WeightRow,
};
use ferric_alpha::performance::turnover::{quantile_turnover_counts, TurnoverPoint, TurnoverRow};
use ferric_alpha::performance::{
    AlphaBetaOptions, CommonStartReturnsOptions, EventReturnsOptions, IcOptions, MeanIcOptions,
    MeanReturnByQuantileOptions, PortfolioOptions, ReturnOptions, TimeBucket, WeightOptions,
};
use ferric_alpha::report::FactorKey;
use ferric_alpha::{FerricAlphaError, Period};

fn column(name: &str, is_float64: bool, dtype: &str) -> ColumnInfo {
    ColumnInfo { name: name.to_string(), is_float64, dtype: dtype.to_string() }
}

fn discovery_error(reason: &'static str) -> FerricAlphaError {
    FerricAlphaError::InvalidInput { operation: "discover_forward_periods", reason }
}

#[test]
fn option_defaults_and_builders() {
    assert_eq!(IcOptions::default(), IcOptions { group_adjust: false, by_group: false });
    assert_eq!(
        IcOptions::default().with_group_adjust(true).with_by_group(true),
        IcOptions { group_adjust: true, by_group: true }
    );
    let mean_ic = MeanIcOptions::default().with_by_time(Some(TimeBucket::Monthly));
    assert_eq!(mean_ic.by_time, Some(TimeBucket::Monthly));
    assert!(!mean_ic.with_by_group(true).group_adjust);
    let weights = WeightOptions::default();
    assert!(weights.demeaned && !weights.group_adjust && !weights.equal_weight);
    let weights = weights.with_demeaned(false).with_group_adjust(true).with_equal_weight(true);
    assert_eq!(
        weights,
        WeightOptions { demeaned: false, group_adjust: true, equal_weight: true }
    );
    let returns = ReturnOptions::default().with_weight_options(weights).with_by_asset(true);
    assert_eq!(returns.weight_options, weights);
    assert!(returns.by_asset);
    assert_eq!(
        AlphaBetaOptions::default().with_weight_options(weights).weight_options,
        weights
    );
    let by_quantile = MeanReturnByQuantileOptions::default();
    assert!(by_quantile.demeaned && !by_quantile.by_date);
    let by_quantile = by_quantile
        .with_by_date(true)
        .with_by_group(true)
        .with_demeaned(false)
        .with_group_adjust(true);
    assert_eq!(
        by_quantile,
        MeanReturnByQuantileOptions {
            by_date: true,
            by_group: true,
            demeaned: false,
            group_adjust: true
        }
    );
    let portfolio = PortfolioOptions::default()
        .with_quantiles(Some(vec![1, 5]))
        .with_groups(Some(vec!["tech".to_string()]))
        .with_weight_options(weights);
    assert_eq!(portfolio.quantiles, Some(vec![1, 5]));
    assert_eq!(portfolio.groups, Some(vec!["tech".to_string()]));
    assert_eq!(portfolio.weight_options, weights);
    let events = EventReturnsOptions::default();
    assert_eq!((events.periods_before, events.periods_after), (10, 15));
    let events = events
        .with_periods_before(3)
        .with_periods_after(4)
        .with_demeaned(false)
        .with_group_adjust(true)
        .with_by_group(true);
    assert_eq!(
        events,
        EventReturnsOptions {
            periods_before: 3,
            periods_after: 4,
            demeaned: false,
            group_adjust: true,
            by_group: true
        }
    );
    let common = CommonStartReturnsOptions::default()
        .with_periods_before(1)
        .with_periods_after(2)
        .with_cumulative(true)
        .with_mean_by_date(true)
        .with_demeaned(true);
    assert_eq!(
        common,
        CommonStartReturnsOptions {
            periods_before: 1,
            periods_after: 2,
            cumulative: true,
            mean_by_date: true,
            demeaned: true
        }
    );
}

#[test]
fn forward_periods_are_found_and_ordered() {
    let columns = [
        column("date", false, "datetime[us]"),
        column("forward_return_5D", true, "f64"),
        column("factor", true, "f64"),
        column("forward_return_1D", true, "f64"),
    ];
    assert_eq!(
        discover_forward_periods(&columns),
        Ok(vec![
            ForwardPeriod { column: "forward_return_1D".to_string(), label: "1D".to_string(), observations: 1 },
            ForwardPeriod { column: "forward_return_5D".to_string(), label: "5D".to_string(), observations: 5 },
        ])
    );
}

#[test]
fn forward_period_errors_name_the_first_bad_column() {
    let check = |name: &str| discover_forward_periods(&[column(name, true, "f64")]);
    assert_eq!(check("forward_return_5"), Err(discovery_error("forward return period must end with D")));
    assert_eq!(
        check("forward_return_0D"),
        Err(discovery_error("forward return period must be a positive daily count"))
    );
    assert_eq!(check("forward_return_xD"), Err(discovery_error("forward return period must be numeric")));
    assert_eq!(
        discover_forward_periods(&[
            column("forward_return_2D", true, "f64"),
            column("forward_return_2D", true, "f64"),
        ]),
        Err(discovery_error("forward return periods must be unique and positive"))
    );
    assert_eq!(
        discover_forward_periods(&[column("forward_return_2D", false, "str")]),
        Err(FerricAlphaError::InvalidDtype {
            column: "forward_return_2D".to_string(),
            expected: "Float64",
            actual: "str".to_string()
        })
    );
}

#[test]
fn period_labels_sort_by_count() {
    assert_eq!(period_order("10D"), Some(10));
    assert_eq!(period_order("5D"), Some(5));
    assert_eq!(period_order("D"), None);
    assert_eq!(period_order("5"), None);
}

#[test]
fn portfolio_filters_are_checked() {
    assert_eq!(validate_period_label("5D"), Ok(()));
    let bad_period = Err(FerricAlphaError::InvalidInput {
        operation: "cumulative_returns",
        reason: "period must be a positive daily count",
    });
    assert_eq!(validate_period_label("0D"), bad_period);
    assert_eq!(validate_period_label("5"), bad_period);
    assert_eq!(validate_period_label("D"), bad_period);

    let bad_quantiles = Err(FerricAlphaError::InvalidOption {
        option: "quantiles",
        reason: "quantiles must be positive and unique",
    });
    assert_eq!(validate_quantile_filter(None), Ok(None));
    assert_eq!(validate_quantile_filter(Some(&[2, 1])), Ok(Some(vec![2, 1])));
    assert_eq!(validate_quantile_filter(Some(&[])), bad_quantiles);
    assert_eq!(validate_quantile_filter(Some(&[1, 1])), bad_quantiles);
    assert_eq!(validate_quantile_filter(Some(&[0])), bad_quantiles);

    let bad_groups = Err(FerricAlphaError::InvalidOption {
        option: "groups",
        reason: "groups must be non-empty and unique",
    });
    let names = |v: &[&str]| v.iter().map(|s| s.to_string()).collect::<Vec<_>>();
    assert_eq!(validate_group_filter(None), Ok(None));
    assert_eq!(validate_group_filter(Some(&names(&["a", "b"]))), Ok(Some(names(&["a", "b"]))));
    assert_eq!(validate_group_filter(Some(&names(&["a", "a"]))), bad_groups);
    assert_eq!(validate_group_filter(Some(&names(&[""]))), bad_groups);
    assert_eq!(validate_group_filter(Some(&[])), bad_groups);
}

#[test]
fn portfolio_rows_follow_the_selection() {
    let key = |quantile: Option<u32>, group: Option<&str>| FactorKey {
        date: 1,
        quantile,
        group: group.map(|g| g.to_string()),
    };
    let rows = [key(Some(1), Some("a")), key(Some(2), Some("b")), key(None, Some("a")), key(Some(1), None)];
    assert_eq!(select_rows(&rows, &None, &None), Ok(vec![true, true, true, true]));
    assert_eq!(select_rows(&rows, &Some(vec![1]), &None), Ok(vec![true, false, false, true]));
    assert_eq!(
        select_rows(&rows, &Some(vec![1]), &Some(vec!["a".to_string()])),
        Ok(vec![true, false, false, false])
    );
    assert_eq!(
        select_rows(&rows, &Some(vec![3]), &None),
        Err(FerricAlphaError::InsufficientData { operation: "portfolio filter" })
    );
}

#[test]
fn turnover_counts_assets_entering_a_quantile() {
    let row = |date, asset, quantile| TurnoverRow { date, asset, quantile: Some(quantile) };
    let rows = [
        row(1, 1, 1), row(1, 2, 1), row(1, 3, 2),
        row(2, 1, 1), row(2, 3, 1), row(2, 2, 2),
        row(3, 2, 1), row(3, 3, 1),
    ];
    let one = Period::new(1).unwrap();
    assert_eq!(
        quantile_turnover_counts(&rows, 1, one),
        Ok(vec![
            TurnoverPoint { date: 1, counts: None },
            TurnoverPoint { date: 2, counts: Some((1, 2)) },
            TurnoverPoint { date: 3, counts: Some((1, 2)) },
        ])
    );
    let two = Period::new(2).unwrap();
    assert_eq!(
        quantile_turnover_counts(&rows, 1, two),
        Ok(vec![
            TurnoverPoint { date: 1, counts: None },
            TurnoverPoint { date: 2, counts: None },
            TurnoverPoint { date: 3, counts: Some((1, 2)) },
        ])
    );
    assert_eq!(
        quantile_turnover_counts(&rows, 3, one),
        Ok(vec![
            TurnoverPoint { date: 1, counts: None },
            TurnoverPoint { date: 2, counts: None },
            TurnoverPoint { date: 3, counts: None },
        ])
    );
}

#[test]
fn turnover_rejects_bad_rows() {
    let one = Period::new(1).unwrap();
    let good = TurnoverRow { date: 1, asset: 1, quantile: Some(1) };
    assert_eq!(
        quantile_turnover_counts(&[good], 0, one),
        Err(FerricAlphaError::InvalidOption { option: "quantile", reason: "quantile must be positive" })
    );
    assert_eq!(
        quantile_turnover_counts(&[good, TurnoverRow { date: 2, asset: 1, quantile: None }], 1, one),
        Err(FerricAlphaError::InvalidInput {
            operation: "quantile_turnover",
            reason: "factor_quantile must be non-null"
        })
    );
    assert_eq!(
        quantile_turnover_counts(&[TurnoverRow { date: 2, asset: 1, quantile: Some(0) }], 1, one),
        Err(FerricAlphaError::InvalidInput {
            operation: "quantile_turnover",
            reason: "factor_quantile must be positive"
        })
    );
    assert_eq!(quantile_turnover_counts(&[good, good], 1, one), Err(FerricAlphaError::DuplicateKey));
}

#[test]
fn events_are_rows_with_a_quantile_on_a_session() {
    let rows = [
        EventRow { date: 10, asset: 1, group: Some(1), quantile: Some(1) },
        EventRow { date: 15, asset: 2, group: Some(1), quantile: Some(2) },
        EventRow { date: 20, asset: 3, group: None, quantile: Some(0) },
        EventRow { date: 20, asset: 4, group: Some(2), quantile: None },
        EventRow { date: 30, asset: 5, group: Some(2), quantile: Some(1) },
    ];
    let selection = select_events(&rows, &[10, 20, 30], EventReturnsOptions::default()).unwrap();
    assert_eq!(
        selection.events,
        vec![
            Event { date: 10, session_index: 0, asset: 1, group: Some(1), quantile: 1 },
            Event { date: 30, session_index: 2, asset: 5, group: Some(2), quantile: 1 },
        ]
    );
    assert_eq!(selection.input_events, 3);
    assert_eq!(selection.skipped_missing_date, 1);
}

#[test]
fn event_selection_errors() {
    let ungrouped = [EventRow { date: 10, asset: 1, group: None, quantile: Some(1) }];
    assert_eq!(
        select_events(&ungrouped, &[10], EventReturnsOptions::default().with_by_group(true)),
        Err(FerricAlphaError::InvalidInput {
            operation: "average_cumulative_return_by_quantile",
            reason: "group must not contain null values"
        })
    );
    assert!(select_events(&ungrouped, &[10], EventReturnsOptions::default()).is_ok());
    assert_eq!(
        select_events(&ungrouped, &[20], EventReturnsOptions::default()),
        Err(FerricAlphaError::InsufficientData { operation: "average_cumulative_return_by_quantile" })
    );
}

fn sample_events() -> Vec<Event> {
    vec![
        Event { date: 10, session_index: 0, asset: 1, group: Some(1), quantile: 1 },
        Event { date: 10, session_index: 0, asset: 2, group: Some(2), quantile: 1 },
        Event { date: 10, session_index: 0, asset: 3, group: Some(1), quantile: 2 },
        Event { date: 20, session_index: 1, asset: 4, group: Some(1), quantile: 1 },
    ]
}

#[test]
fn events_are_grouped_by_date_and_quantile() {
    let partitions = partition_events(&sample_events(), false);
    assert_eq!(
        partitions.keys,
        vec![
            PartitionKey { date: 10, quantile: 1, group: None },
            PartitionKey { date: 10, quantile: 2, group: None },
            PartitionKey { date: 20, quantile: 1, group: None },
        ]
    );
    assert_eq!(partitions.sizes, vec![2, 1, 1]);
    assert_eq!(partitions.sessions, vec![0, 0, 1]);
    assert_eq!(partitions.membership, vec![0, 0, 1, 2]);

    let by_group = partition_events(&sample_events(), true);
    assert_eq!(by_group.keys.len(), 4);
    assert_eq!(by_group.sizes, vec![1, 1, 1, 1]);
    assert_eq!(by_group.keys[1], PartitionKey { date: 10, quantile: 1, group: Some(2) });
}

#[test]
fn event_window_coverage_counts_paths_that_reach_each_offset() {
    let partitions = partition_events(&sample_events(), false);
    assert_eq!(
        offset_coverage(&partitions, 3, 1, 1),
        vec![
            OffsetCoverage { offset: -1, used_events: 1, path_count: 1 },
            OffsetCoverage { offset: 0, used_events: 4, path_count: 3 },
            OffsetCoverage { offset: 1, used_events: 4, path_count: 3 },
        ]
    );
    assert_eq!(
        offset_coverage(&partitions, 2, 0, 1),
        vec![
            OffsetCoverage { offset: 0, used_events: 4, path_count: 3 },
            OffsetCoverage { offset: 1, used_events: 3, path_count: 2 },
        ]
    );
}

#[test]
fn weight_rows_are_checked_in_order() {
    let row = |date, asset: &str, weight_ok| WeightRow { date, asset: asset.to_string(), weight_ok };
    assert_eq!(validate_weight_rows(&[row(2, "b", true), row(1, "a", true), row(2, "a", true)]), Ok(vec![1, 2]));
    assert_eq!(
        validate_weight_rows(&[row(1, "a", false)]),
        Err(FerricAlphaError::InvalidInput {
            operation: "positions",
            reason: "weights must be finite and non-null"
        })
    );
    assert_eq!(
        validate_weight_rows(&[row(1, "cash", true)]),
        Err(FerricAlphaError::InvalidInput {
            operation: "positions",
            reason: "asset name cash is reserved for synthetic cash"
        })
    );
    assert_eq!(
        validate_weight_rows(&[row(1, "a", true), row(1, "a", true)]),
        Err(FerricAlphaError::DuplicateKey)
    );
}

#[test]
fn sessions_are_sorted_and_unique() {
    assert_eq!(sort_sessions(&[3, 1, 2]), Ok(vec![1, 2, 3]));
    assert_eq!(sort_sessions(&[1, 1]), Err(FerricAlphaError::DuplicateSession));
}

#[test]
fn position_sleeves_overlap_for_the_period() {
    let two = Period::new(2).unwrap();
    let plan = plan_positions(vec![1, 2], Some(vec![4, 3, 2, 1]), two).unwrap();
    assert_eq!(plan.sessions, vec![1, 2, 3, 4]);
    assert_eq!(plan.trades, vec![1, 2]);
    assert_eq!(plan.active[0], (0, 1));
    assert_eq!(plan.active[1], (0, 2));
    assert_eq!(plan.active[2], (1, 2));
    assert_eq!(plan.active[3].0, plan.active[3].1);

    let own = plan_positions(vec![1, 3], None, two).unwrap();
    assert_eq!(own.sessions, vec![1, 3]);
    assert_eq!(own.active, vec![(0, 1), (0, 2)]);

    assert_eq!(plan_positions(vec![1], Some(vec![1, 1]), two), Err(FerricAlphaError::DuplicateSession));
    assert_eq!(
        plan_positions(vec![1], Some(vec![2, 3]), two),
        Err(FerricAlphaError::InvalidInput {
            operation: "positions",
            reason: "every trade date must be present in sessions"
        })
    );
}

#[test]
fn event_window_counts_events_skipped_dates_and_paths() {
    // One asset with events on the first two sessions and on a date the calendar lacks.
    const JAN_1: i64 = 1_704_067_200_000;
    const DAY_MS: i64 = 86_400_000;
    let (jan_2, jan_3) = (JAN_1 + DAY_MS, JAN_1 + 2 * DAY_MS);
    let rows = [
        EventRow { date: JAN_1, asset: 0, group: None, quantile: Some(1) },
        EventRow { date: jan_2, asset: 0, group: None, quantile: Some(1) },
        EventRow { date: jan_3 + DAY_MS, asset: 0, group: None, quantile: Some(1) },
    ];
    let options = EventReturnsOptions::default().with_periods_before(1).with_periods_after(1).with_demeaned(false);
    let selection = select_events(&rows, &[JAN_1, jan_2, jan_3], options).unwrap();
    assert_eq!(selection.input_events, 3);
    assert_eq!(selection.events.len(), 2);
    assert_eq!(selection.skipped_missing_date, 1);
    let partitions = partition_events(&selection.events, false);
    let coverage = offset_coverage(&partitions, 3, 1, 1);
    assert_eq!(coverage[1], OffsetCoverage { offset: 0, used_events: 2, path_count: 2 });
}
