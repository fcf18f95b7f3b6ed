use ferric_alpha::clean::{
    join_losses, parse_duration_suffix, parse_forward_return_duration, JoinRow, LossReport,
};

#[test]
fn join_counts_each_kind_of_loss() {
    let rows = [
        JoinRow { returns_complete: true, quantile: Some(1) },
        JoinRow { returns_complete: false, quantile: Some(2) },
        JoinRow { returns_complete: true, quantile: None },
        JoinRow { returns_complete: false, quantile: None },
        JoinRow { returns_complete: true, quantile: Some(3) },
    ];
    let (report, kept) = join_losses(&rows);
    assert_eq!(
        report,
        LossReport { input_rows: 5, output_rows: 2, forward_return_loss: 2, quantile_loss: 2 }
    );
    assert_eq!(kept, vec![true, false, false, false, true]);
}

#[test]
fn join_of_nothing_loses_nothing() {
    let (report, kept) = join_losses(&[]);
    assert_eq!(
        report,
        LossReport { input_rows: 0, output_rows: 0, forward_return_loss: 0, quantile_loss: 0 }
    );
    assert!(kept.is_empty());
}

#[test]
fn duration_suffixes_scale_to_microseconds() {
    assert_eq!(parse_duration_suffix("1D"), Some(86_400_000_000));
    assert_eq!(parse_duration_suffix("250ms"), Some(250_000));
    assert_eq!(parse_duration_suffix("2h"), Some(7_200_000_000));
    assert_eq!(parse_duration_suffix("30m"), Some(1_800_000_000));
    assert_eq!(parse_duration_suffix("15s"), Some(15_000_000));
    assert_eq!(parse_duration_suffix("5"), None);
    assert_eq!(parse_duration_suffix("xD"), None);
    assert_eq!(parse_duration_suffix("D"), None);
}

#[test]
fn forward_return_names_carry_durations() {
    assert_eq!(parse_forward_return_duration("forward_return_5D"), Some(432_000_000_000));
    assert_eq!(parse_forward_return_duration("forward_return_30m"), Some(1_800_000_000));
    assert_eq!(parse_forward_return_duration("return_5D"), None);
    assert_eq!(parse_forward_return_duration("forward_return_"), None);
}

use ferric_alpha::clean::forward_return_columns;

#[test]
fn forward_return_columns_sort_by_duration_then_name() {
    let names: Vec<String> = [
        "date",
        "forward_return_5D",
        "forward_return_30m",
        "forward_return_1D",
        "forward_return_x",
        "asset",
        "forward_return_10D",
        "forward_return_b",
    ]
    .iter()
    .map(|s| s.to_string())
    .collect();
    assert_eq!(
        forward_return_columns(&names),
        vec![
            "forward_return_30m",
            "forward_return_1D",
            "forward_return_5D",
            "forward_return_10D",
            "forward_return_b",
            "forward_return_x",
        ]
    );
    assert!(forward_return_columns(&["factor".to_string()]).is_empty());
}
