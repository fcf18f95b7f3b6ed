use vstd::prelude::*;

use crate::text::{append_decimal, decimal};

verus! {

/// Errors reported by the library.
///
/// The data-frame layer adds the errors that only it can raise (engine failures and the
/// floating-point loss limits); every rule that the library checks itself is reported here.
#[derive(Debug, Clone, PartialEq, Eq)]
#[non_exhaustive]
pub enum FerricAlphaError {
    MissingColumn(&'static str),
    InvalidDtype { column: String, expected: &'static str, actual: String },
    NullKey,
    DuplicateKey,
    InvalidPeriod { count: u32 },
    DuplicatePeriod,
    UnsortedSessions,
    DuplicateSession,
    TimezoneMismatch,
    InvalidPrice,
    InvalidQuantiles { reason: &'static str },
    InvalidInput { operation: &'static str, reason: &'static str },
    InvalidReport { operation: &'static str, reason: &'static str },
    ReportVersion { expected: &'static str, actual: String },
    InvalidOption { option: &'static str, reason: &'static str },
    ConflictingQuantileMode,
    InsufficientData { operation: &'static str },
}

/// The text that describes an error to a reader.
pub open spec fn error_message(e: FerricAlphaError) -> Seq<char> {
    match e {
        FerricAlphaError::MissingColumn(c) => "missing required column: "@ + c@,
        FerricAlphaError::InvalidDtype { column, expected, actual } => "column "@ + column@
            + " has invalid dtype: expected "@ + expected@ + ", got "@ + actual@,
        FerricAlphaError::NullKey => "date and asset must not contain null values"@,
        FerricAlphaError::DuplicateKey => "duplicate date/asset key"@,
        FerricAlphaError::InvalidPeriod { count } => "period count must be positive, got "@
            + decimal(count as nat),
        FerricAlphaError::DuplicatePeriod => "periods must be unique"@,
        FerricAlphaError::UnsortedSessions => "trading calendar sessions must be sorted ascending"@,
        FerricAlphaError::DuplicateSession => "trading calendar sessions must be unique"@,
        FerricAlphaError::TimezoneMismatch => "factor and price date timezones must match"@,
        FerricAlphaError::InvalidPrice => "price must be positive and finite"@,
        FerricAlphaError::InvalidQuantiles { reason } => "invalid quantile request: "@ + reason@,
        FerricAlphaError::InvalidInput { operation, reason } => "invalid input for "@
            + operation@ + ": "@ + reason@,
        FerricAlphaError::InvalidReport { operation, reason } => "invalid report for "@
            + operation@ + ": "@ + reason@,
        FerricAlphaError::ReportVersion { expected, actual } =>
            "unsupported report contract version: expected "@ + expected@ + ", got "@ + actual@,
        FerricAlphaError::InvalidOption { option, reason } => "invalid option "@ + option@
            + ": "@ + reason@,
        FerricAlphaError::ConflictingQuantileMode => "quantiles and bins are mutually exclusive"@,
        FerricAlphaError::InsufficientData { operation } => "insufficient observations for "@
            + operation@,
    }
}

/// `a` followed by `b`, as a new string.
fn joined(a: &str, b: &str) -> (r: String)
    ensures
        r@ == a@ + b@,
{
    let mut s = String::from_str(a);
    s.append(b);
    s
}

/// `a`, `b`, `c` and `d` one after another, as a new string.
fn joined4(a: &str, b: &str, c: &str, d: &str) -> (r: String)
    ensures
        r@ == a@ + b@ + c@ + d@,
{
    let mut s = String::from_str(a);
    s.append(b);
    s.append(c);
    s.append(d);
    s
}

impl FerricAlphaError {
    /// The text that describes the error.
    pub fn message(&self) -> (r: String)
        ensures
            r@ == error_message(*self),
    {
        match self {
            FerricAlphaError::MissingColumn(c) => joined("missing required column: ", c),
            FerricAlphaError::InvalidDtype { column, expected, actual } => {
                let mut s = joined4("column ", column.as_str(), " has invalid dtype: expected ", expected);
                s.append(", got ");
                s.append(actual.as_str());
                s
            },
            FerricAlphaError::NullKey => String::from_str("date and asset must not contain null values"),
            FerricAlphaError::DuplicateKey => String::from_str("duplicate date/asset key"),
            FerricAlphaError::InvalidPeriod { count } => {
                let mut s = String::from_str("period count must be positive, got ");
                append_decimal(&mut s, *count as u64);
                s
            },
            FerricAlphaError::DuplicatePeriod => String::from_str("periods must be unique"),
            FerricAlphaError::UnsortedSessions => String::from_str(
                "trading calendar sessions must be sorted ascending",
            ),
            FerricAlphaError::DuplicateSession => String::from_str(
                "trading calendar sessions must be unique",
            ),
            FerricAlphaError::TimezoneMismatch => String::from_str(
                "factor and price date timezones must match",
            ),
            FerricAlphaError::InvalidPrice => String::from_str("price must be positive and finite"),
            FerricAlphaError::InvalidQuantiles { reason } => joined("invalid quantile request: ", reason),
            FerricAlphaError::InvalidInput { operation, reason } => joined4(
                "invalid input for ",
                operation,
                ": ",
                reason,
            ),
            FerricAlphaError::InvalidReport { operation, reason } => joined4(
                "invalid report for ",
                operation,
                ": ",
                reason,
            ),
            FerricAlphaError::ReportVersion { expected, actual } => joined4(
                "unsupported report contract version: expected ",
                expected,
                ", got ",
                actual.as_str(),
            ),
            FerricAlphaError::InvalidOption { option, reason } => joined4(
                "invalid option ",
                option,
                ": ",
                reason,
            ),
            FerricAlphaError::ConflictingQuantileMode => String::from_str(
                "quantiles and bins are mutually exclusive",
            ),
            FerricAlphaError::InsufficientData { operation } => joined(
                "insufficient observations for ",
                operation,
            ),
        }
    }
}

} // verus!
