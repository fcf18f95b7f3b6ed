use vstd::prelude::*;

pub mod calendar;
pub mod clean;
pub mod data;
pub mod error;
pub mod forward_returns;
pub mod grouping;
pub mod performance;
pub mod quantiles;
pub mod report;
pub mod sorted;
pub mod text;

pub use calendar::{Period, TradingCalendar};
pub use error::FerricAlphaError;

verus! {

/// The version of this library.
pub const VERSION: &'static str = "0.1.0";

} // verus!
