use ferric_alpha::calendar::validate_periods;
use ferric_alpha::{FerricAlphaError, Period, TradingCalendar};

#[test]
fn period_rejects_zero() {
    assert_eq!(Period::new(0), Err(FerricAlphaError::InvalidPeriod { count: 0 }));
}

#[test]
fn period_label_uses_day_suffix() {
    let period = Period::new(5).unwrap();
    assert_eq!(period.count(), 5);
    assert_eq!(period.label(), "5D");
    assert_eq!(Period::new(120).unwrap().label(), "120D");
}

#[test]
fn calendar_rejects_unsorted_sessions() {
    assert_eq!(
        TradingCalendar::new(vec![1, 3, 2], None),
        Err(FerricAlphaError::UnsortedSessions)
    );
}

#[test]
fn calendar_rejects_duplicate_sessions() {
    assert_eq!(
        TradingCalendar::new(vec![1, 2, 2, 1], None),
        Err(FerricAlphaError::DuplicateSession)
    );
}

#[test]
fn calendar_offsets_by_sessions() {
    let calendar = TradingCalendar::new(vec![10, 20, 30, 40], Some("UTC".to_string())).unwrap();
    let one = Period::new(1).unwrap();
    let two = Period::new(2).unwrap();
    assert_eq!(calendar.offset(10, one), Some(20));
    assert_eq!(calendar.offset(20, two), Some(40));
    assert_eq!(calendar.offset(30, two), None);
    assert_eq!(calendar.offset(15, one), None);
    assert_eq!(calendar.timezone(), Some("UTC"));
    assert_eq!(calendar.sessions(), &[10, 20, 30, 40]);
}

#[test]
fn calendar_offset_composes() {
    let calendar = TradingCalendar::new(vec![1, 5, 9, 13, 17], None).unwrap();
    let one = Period::new(1).unwrap();
    let three = Period::new(3).unwrap();
    let four = Period::new(4).unwrap();
    let mid = calendar.offset(1, one).unwrap();
    assert_eq!(calendar.offset(mid, three), calendar.offset(1, four));
}

#[test]
fn validate_periods_sorts_and_rejects_duplicates() {
    let p = |n| Period::new(n).unwrap();
    assert_eq!(validate_periods(&[p(5), p(1), p(10)]), Ok(vec![p(1), p(5), p(10)]));
    assert_eq!(validate_periods(&[p(5), p(1), p(5)]), Err(FerricAlphaError::DuplicatePeriod));
    assert_eq!(
        validate_periods(&[]),
        Err(FerricAlphaError::InsufficientData { operation: "periods" })
    );
}
