use vstd::prelude::*;

use crate::error::FerricAlphaError;
use crate::performance::options::{MeanReturnByQuantileOptions, WeightOptions};
use crate::report::options::ReturnsTearSheetOptions;
use crate::text::str_eq;

verus! {

/// A forward-return period of factor data: its label and its length in sessions.
#[derive(Debug, Clone, PartialEq, Eq)]
pub struct PeriodInfo {
    pub label: String,
    pub observations: u32,
}

/// What a returns tear sheet is built from: the period that returns are rescaled to, the
/// quantiles whose spread it shows, the options of its weights and means, and which of its
/// optional tables it has.
#[derive(Debug, Clone, Copy, PartialEq, Eq)]
pub struct ReturnsPlan {
    pub base: u32,
    pub lower_quantile: u32,
    pub upper_quantile: u32,
    pub weight_options: WeightOptions,
    pub mean_options: MeanReturnByQuantileOptions,
    pub group_table: bool,
    pub one_day_tables: bool,
}

/// The shortest period, in sessions.
pub open spec fn is_min_observations(periods: Seq<PeriodInfo>, base: u32) -> bool {
    &&& forall|i: int| 0 <= i < periods.len() ==> base <= #[trigger] periods[i].observations
    &&& exists|i: int| 0 <= i < periods.len() && base == #[trigger] periods[i].observations
}

/// The factor data has a one-day period.
pub open spec fn has_one_day(periods: Seq<PeriodInfo>) -> bool {
    exists|i: int| 0 <= i < periods.len() && #[trigger] periods[i].label@ == "1D"@
}

/// Decides how a returns tear sheet is built from the periods and the (increasing)
/// quantiles of the factor data: returns are rescaled to the shortest period, the spread
/// runs from the first quantile to the last, long-short demeans and group-neutral adjusts
/// by group, the table by group comes with `by_group`, and the cumulative tables with a
/// one-day period. Without quantiles there is no tear sheet.
pub fn returns_plan(
    periods: &[PeriodInfo],
    quantiles: &[u32],
    options: ReturnsTearSheetOptions,
) -> (r: Result<ReturnsPlan, FerricAlphaError>)
    requires
        periods@.len() > 0,
    ensures
        quantiles@.len() == 0 ==> r == Err::<ReturnsPlan, FerricAlphaError>(
            FerricAlphaError::InsufficientData { operation: "create_returns_tear_sheet_data" },
        ),
        quantiles@.len() > 0 ==> r is Ok,
        r matches Ok(plan) ==> {
            &&& is_min_observations(periods@, plan.base)
            &&& plan.lower_quantile == quantiles@[0]
            &&& plan.upper_quantile == quantiles@.last()
            &&& plan.weight_options == (WeightOptions {
                demeaned: options.long_short,
                group_adjust: options.group_neutral,
                equal_weight: false,
            })
            &&& plan.mean_options == (MeanReturnByQuantileOptions {
                by_date: false,
                by_group: false,
                demeaned: options.long_short,
                group_adjust: options.group_neutral,
            })
            &&& plan.group_table == options.by_group
            &&& plan.one_day_tables == has_one_day(periods@)
        },
{
    let n: usize = periods.len();
    let mut base: u32 = periods[0].observations;
    let mut one_day: bool = false;
    let mut i: usize = 0;
    while i < n
        invariant
            n == periods@.len(),
            n > 0,
            i <= n,
            forall|k: int| 0 <= k < i ==> base <= #[trigger] periods@[k].observations,
            exists|k: int| 0 <= k < n && base == #[trigger] periods@[k].observations,
            one_day == exists|k: int| 0 <= k < i && #[trigger] periods@[k].label@ == "1D"@,
        decreases n - i,
    {
        if periods[i].observations < base {
            base = periods[i].observations;
        }
        if str_eq(periods[i].label.as_str(), "1D") {
            one_day = true;
        }
        i = i + 1;
    }
    if quantiles.len() == 0 {
        return Err(FerricAlphaError::InsufficientData { operation: "create_returns_tear_sheet_data" });
    }
    let weight_options = WeightOptions::default().with_demeaned(options.long_short).with_group_adjust(
        options.group_neutral,
    );
    let mean_options = MeanReturnByQuantileOptions::default().with_demeaned(
        options.long_short,
    ).with_group_adjust(options.group_neutral);
    Ok(
        ReturnsPlan {
            base,
            lower_quantile: quantiles[0],
            upper_quantile: quantiles[quantiles.len() - 1],
            weight_options,
            mean_options,
            group_table: options.by_group,
            one_day_tables: one_day,
        },
    )
}

} // verus!
