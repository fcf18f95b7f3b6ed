use ferric_alpha::data::{
    calendar_from_dates, check_factor_data, distinct_sorted, validate_price_rows,
    validate_row_keys, ColumnState, PriceRow, RowKey,
};
use ferric_alpha::report::FactorKey;
use ferric_alpha::FerricAlphaError;

fn key(date: i64, asset: u64) -> RowKey {
    RowKey { date: Some(date), asset: Some(asset) }
}

#[test]
fn row_keys_must_be_present_and_unique() {
    assert_eq!(validate_row_keys(&[key(1, 1), key(1, 2), key(2, 1)]), Ok(()));
    assert_eq!(validate_row_keys(&[]), Ok(()));
    assert_eq!(
        validate_row_keys(&[key(1, 1), key(2, 1), key(1, 1)]),
        Err(FerricAlphaError::DuplicateKey)
    );
    assert_eq!(
        validate_row_keys(&[key(1, 1), key(1, 1), RowKey { date: None, asset: Some(3) }]),
        Err(FerricAlphaError::NullKey)
    );
    assert_eq!(
        validate_row_keys(&[RowKey { date: Some(-5), asset: None }]),
        Err(FerricAlphaError::NullKey)
    );
    assert_eq!(validate_row_keys(&[key(i64::MIN, u64::MAX), key(i64::MAX, 0)]), Ok(()));
}

fn price(date: i64, asset: u64, value: Option<f64>) -> PriceRow {
    PriceRow { key: key(date, asset), price: value.map(f64::to_bits) }
}

#[test]
fn price_rows_need_positive_finite_prices() {
    assert_eq!(validate_price_rows(&[price(1, 1, Some(10.0)), price(1, 2, None)]), Ok(()));
    for bad in [0.0, -0.0, -1.0, f64::NAN, f64::INFINITY] {
        assert_eq!(
            validate_price_rows(&[price(1, 1, Some(10.0)), price(2, 1, Some(bad))]),
            Err(FerricAlphaError::InvalidPrice)
        );
    }
    assert_eq!(
        validate_price_rows(&[price(1, 1, Some(1.0)), price(1, 1, Some(2.0)), price(2, 1, Some(-1.0))]),
        Err(FerricAlphaError::DuplicateKey)
    );
    assert_eq!(
        validate_price_rows(&[price(1, 1, Some(1.0)), price(1, 1, Some(-2.0))]),
        Err(FerricAlphaError::InvalidPrice)
    );
    assert_eq!(
        validate_price_rows(&[price(1, 1, Some(-1.0)), PriceRow { key: RowKey { date: Some(1), asset: None }, price: None }]),
        Err(FerricAlphaError::NullKey)
    );
}

#[test]
fn price_dates_make_a_calendar() {
    assert_eq!(distinct_sorted(&[3, 1, 3, 2, 1]), vec![1, 2, 3]);
    let calendar = calendar_from_dates(&[20, 10, 20, 30], Some("UTC".to_string()));
    assert_eq!(calendar.sessions(), &[10, 20, 30]);
    assert_eq!(calendar.timezone(), Some("UTC"));
}

fn factor(quantile: Option<u32>, group: Option<&str>) -> FactorKey {
    FactorKey { date: 1, quantile, group: group.map(|g| g.to_string()) }
}

fn data_error(reason: &'static str) -> Result<(), FerricAlphaError> {
    Err(FerricAlphaError::InvalidInput { operation: "validate_factor_data", reason })
}

#[test]
fn factor_data_is_checked_for_what_a_computation_needs() {
    let rows = [factor(Some(1), Some("a")), factor(None, None)];
    let present = ColumnState::Present;
    assert_eq!(check_factor_data(1, true, &present, &rows, false, false, true), Ok(()));
    assert_eq!(
        check_factor_data(0, false, &ColumnState::Missing, &rows, true, true, true),
        Err(FerricAlphaError::MissingColumn("forward_return_*"))
    );
    assert_eq!(
        check_factor_data(1, false, &ColumnState::Missing, &rows, true, true, true),
        Err(FerricAlphaError::MissingColumn("group"))
    );
    assert_eq!(
        check_factor_data(1, true, &ColumnState::Missing, &rows, true, true, true),
        Err(FerricAlphaError::MissingColumn("factor_quantile"))
    );
    assert_eq!(
        check_factor_data(1, true, &ColumnState::Mistyped("i64".to_string()), &rows, true, false, false),
        Err(FerricAlphaError::InvalidDtype {
            column: "factor_quantile".to_string(),
            expected: "UInt32",
            actual: "i64".to_string()
        })
    );
    assert_eq!(
        check_factor_data(1, true, &present, &rows, true, true, false),
        data_error("group must not contain null values")
    );
    assert_eq!(
        check_factor_data(1, true, &present, &rows, true, false, false),
        data_error("factor_quantile must be non-null and positive")
    );
    assert_eq!(
        check_factor_data(1, true, &present, &[factor(Some(0), Some("a"))], true, true, false),
        data_error("factor_quantile must be non-null and positive")
    );
}

use ferric_alpha::data::validate_lookup_keys;

#[test]
fn lookup_keys_fail_at_the_first_bad_row() {
    assert_eq!(validate_lookup_keys(&[key(1, 1), key(1, 2)]), Ok(()));
    assert_eq!(
        validate_lookup_keys(&[key(1, 1), key(1, 1), RowKey { date: None, asset: Some(1) }]),
        Err(FerricAlphaError::DuplicateKey)
    );
    assert_eq!(
        validate_lookup_keys(&[key(1, 1), RowKey { date: None, asset: Some(1) }, key(1, 1)]),
        Err(FerricAlphaError::NullKey)
    );
}
