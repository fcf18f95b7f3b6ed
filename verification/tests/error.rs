use ferric_alpha::FerricAlphaError;

#[test]
fn error_messages_describe_each_error() {
    assert_eq!(
        FerricAlphaError::MissingColumn("factor").message(),
        "missing required column: factor"
    );
    assert_eq!(
        FerricAlphaError::InvalidDtype {
            column: "date".to_string(),
            expected: "Datetime",
            actual: "i64".to_string()
        }
        .message(),
        "column date has invalid dtype: expected Datetime, got i64"
    );
    assert_eq!(FerricAlphaError::NullKey.message(), "date and asset must not contain null values");
    assert_eq!(FerricAlphaError::DuplicateKey.message(), "duplicate date/asset key");
    assert_eq!(
        FerricAlphaError::InvalidPeriod { count: 0 }.message(),
        "period count must be positive, got 0"
    );
    assert_eq!(FerricAlphaError::DuplicatePeriod.message(), "periods must be unique");
    assert_eq!(
        FerricAlphaError::UnsortedSessions.message(),
        "trading calendar sessions must be sorted ascending"
    );
    assert_eq!(FerricAlphaError::DuplicateSession.message(), "trading calendar sessions must be unique");
    assert_eq!(FerricAlphaError::TimezoneMismatch.message(), "factor and price date timezones must match");
    assert_eq!(FerricAlphaError::InvalidPrice.message(), "price must be positive and finite");
    assert_eq!(
        FerricAlphaError::InvalidQuantiles { reason: "bins must be at least 1" }.message(),
        "invalid quantile request: bins must be at least 1"
    );
    assert_eq!(
        FerricAlphaError::InvalidInput { operation: "positions", reason: "bad" }.message(),
        "invalid input for positions: bad"
    );
    assert_eq!(
        FerricAlphaError::InvalidReport { operation: "ReportTable::new", reason: "invalid table id" }.message(),
        "invalid report for ReportTable::new: invalid table id"
    );
    assert_eq!(
        FerricAlphaError::ReportVersion { expected: "v1", actual: "v0".to_string() }.message(),
        "unsupported report contract version: expected v1, got v0"
    );
    assert_eq!(
        FerricAlphaError::InvalidOption { option: "groups", reason: "empty" }.message(),
        "invalid option groups: empty"
    );
    assert_eq!(
        FerricAlphaError::ConflictingQuantileMode.message(),
        "quantiles and bins are mutually exclusive"
    );
    assert_eq!(
        FerricAlphaError::InsufficientData { operation: "periods" }.message(),
        "insufficient observations for periods"
    );
}
