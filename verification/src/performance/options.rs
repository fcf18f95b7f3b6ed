use vstd::prelude::*;

verus! {

/// How dates are grouped when averaging over time.
#[derive(Debug, Clone, Copy, PartialEq, Eq, Structural)]
pub enum TimeBucket {
    Daily,
    Weekly,
    Monthly,
}

/// Options of the information coefficient.
#[derive(Debug, Clone, Copy, PartialEq, Eq, Structural)]
pub struct IcOptions {
    pub group_adjust: bool,
    pub by_group: bool,
}

impl Default for IcOptions {
    fn default() -> (r: Self)
        ensures
            r == (IcOptions { group_adjust: false, by_group: false }),
    {
        IcOptions { group_adjust: false, by_group: false }
    }
}

impl IcOptions {
    pub fn with_group_adjust(self, group_adjust: bool) -> (r: Self)
        ensures
            r == (IcOptions { group_adjust, ..self }),
    {
        IcOptions { group_adjust, ..self }
    }

    pub fn with_by_group(self, by_group: bool) -> (r: Self)
        ensures
            r == (IcOptions { by_group, ..self }),
    {
        IcOptions { by_group, ..self }
    }
}

/// Options of the mean information coefficient.
#[derive(Debug, Clone, Copy, PartialEq, Eq, Structural)]
pub struct MeanIcOptions {
    pub group_adjust: bool,
    pub by_group: bool,
    pub by_time: Option<TimeBucket>,
}

impl Default for MeanIcOptions {
    fn default() -> (r: Self)
        ensures
            r == (MeanIcOptions { group_adjust: false, by_group: false, by_time: None }),
    {
        MeanIcOptions { group_adjust: false, by_group: false, by_time: None }
    }
}

impl MeanIcOptions {
    pub fn with_group_adjust(self, group_adjust: bool) -> (r: Self)
        ensures
            r == (MeanIcOptions { group_adjust, ..self }),
    {
        MeanIcOptions { group_adjust, ..self }
    }

    pub fn with_by_group(self, by_group: bool) -> (r: Self)
        ensures
            r == (MeanIcOptions { by_group, ..self }),
    {
        MeanIcOptions { by_group, ..self }
    }

    pub fn with_by_time(self, by_time: Option<TimeBucket>) -> (r: Self)
        ensures
            r == (MeanIcOptions { by_time, ..self }),
    {
        MeanIcOptions { by_time, ..self }
    }
}

/// How factor values become portfolio weights.
#[derive(Debug, Clone, Copy, PartialEq, Eq, Structural)]
pub struct WeightOptions {
    pub demeaned: bool,
    pub group_adjust: bool,
    pub equal_weight: bool,
}

impl Default for WeightOptions {
    fn default() -> (r: Self)
        ensures
            r == (WeightOptions { demeaned: true, group_adjust: false, equal_weight: false }),
    {
        WeightOptions { demeaned: true, group_adjust: false, equal_weight: false }
    }
}

impl WeightOptions {
    pub fn with_demeaned(self, demeaned: bool) -> (r: Self)
        ensures
            r == (WeightOptions { demeaned, ..self }),
    {
        WeightOptions { demeaned, ..self }
    }

    pub fn with_group_adjust(self, group_adjust: bool) -> (r: Self)
        ensures
            r == (WeightOptions { group_adjust, ..self }),
    {
        WeightOptions { group_adjust, ..self }
    }

    pub fn with_equal_weight(self, equal_weight: bool) -> (r: Self)
        ensures
            r == (WeightOptions { equal_weight, ..self }),
    {
        WeightOptions { equal_weight, ..self }
    }
}

/// Options of factor returns.
#[derive(Debug, Clone, Copy, PartialEq, Eq, Structural)]
pub struct ReturnOptions {
    pub weight_options: WeightOptions,
    pub by_asset: bool,
}

impl Default for ReturnOptions {
    fn default() -> (r: Self)
        ensures
            r == (ReturnOptions {
                weight_options: WeightOptions { demeaned: true, group_adjust: false, equal_weight: false },
                by_asset: false,
            }),
    {
        ReturnOptions { weight_options: WeightOptions::default(), by_asset: false }
    }
}

impl ReturnOptions {
    pub fn with_weight_options(self, weight_options: WeightOptions) -> (r: Self)
        ensures
            r == (ReturnOptions { weight_options, ..self }),
    {
        ReturnOptions { weight_options, ..self }
    }

    pub fn with_by_asset(self, by_asset: bool) -> (r: Self)
        ensures
            r == (ReturnOptions { by_asset, ..self }),
    {
        ReturnOptions { by_asset, ..self }
    }
}

/// Options of the alpha/beta regression.
#[derive(Debug, Clone, Copy, PartialEq, Eq, Structural)]
pub struct AlphaBetaOptions {
    pub weight_options: WeightOptions,
}

impl Default for AlphaBetaOptions {
    fn default() -> (r: Self)
        ensures
            r == (AlphaBetaOptions {
                weight_options: WeightOptions { demeaned: true, group_adjust: false, equal_weight: false },
            }),
    {
        AlphaBetaOptions { weight_options: WeightOptions::default() }
    }
}

impl AlphaBetaOptions {
    pub fn with_weight_options(self, weight_options: WeightOptions) -> (r: Self)
        ensures
            r == (AlphaBetaOptions { weight_options }),
    {
        AlphaBetaOptions { weight_options }
    }
}

/// Options of the mean return by quantile.
#[derive(Debug, Clone, Copy, PartialEq, Eq, Structural)]
pub struct MeanReturnByQuantileOptions {
    pub by_date: bool,
    pub by_group: bool,
    pub demeaned: bool,
    pub group_adjust: bool,
}

impl Default for MeanReturnByQuantileOptions {
    fn default() -> (r: Self)
        ensures
            r == (MeanReturnByQuantileOptions {
                by_date: false,
                by_group: false,
                demeaned: true,
                group_adjust: false,
            }),
    {
        MeanReturnByQuantileOptions {
            by_date: false,
            by_group: false,
            demeaned: true,
            group_adjust: false,
        }
    }
}

impl MeanReturnByQuantileOptions {
    pub fn with_by_date(self, by_date: bool) -> (r: Self)
        ensures
            r == (MeanReturnByQuantileOptions { by_date, ..self }),
    {
        MeanReturnByQuantileOptions { by_date, ..self }
    }

    pub fn with_by_group(self, by_group: bool) -> (r: Self)
        ensures
            r == (MeanReturnByQuantileOptions { by_group, ..self }),
    {
        MeanReturnByQuantileOptions { by_group, ..self }
    }

    pub fn with_demeaned(self, demeaned: bool) -> (r: Self)
        ensures
            r == (MeanReturnByQuantileOptions { demeaned, ..self }),
    {
        MeanReturnByQuantileOptions { demeaned, ..self }
    }

    pub fn with_group_adjust(self, group_adjust: bool) -> (r: Self)
        ensures
            r == (MeanReturnByQuantileOptions { group_adjust, ..self }),
    {
        MeanReturnByQuantileOptions { group_adjust, ..self }
    }
}

/// Which part of the factor universe a portfolio holds, and how it is weighted.
#[derive(Debug, Clone, PartialEq)]
pub struct PortfolioOptions {
    pub weight_options: WeightOptions,
    pub quantiles: Option<Vec<u32>>,
    pub groups: Option<Vec<String>>,
}

impl Default for PortfolioOptions {
    fn default() -> (r: Self)
        ensures
            r.weight_options == (WeightOptions {
                demeaned: true,
                group_adjust: false,
                equal_weight: false,
            }),
            r.quantiles is None,
            r.groups is None,
    {
        PortfolioOptions { weight_options: WeightOptions::default(), quantiles: None, groups: None }
    }
}

impl PortfolioOptions {
    pub fn with_weight_options(self, weight_options: WeightOptions) -> (r: Self)
        ensures
            r == (PortfolioOptions { weight_options, ..self }),
    {
        PortfolioOptions { weight_options, ..self }
    }

    pub fn with_quantiles(self, quantiles: Option<Vec<u32>>) -> (r: Self)
        ensures
            r == (PortfolioOptions { quantiles, ..self }),
    {
        PortfolioOptions { quantiles, ..self }
    }

    pub fn with_groups(self, groups: Option<Vec<String>>) -> (r: Self)
        ensures
            r == (PortfolioOptions { groups, ..self }),
    {
        PortfolioOptions { groups, ..self }
    }
}

/// The window and adjustments of an event study.
#[derive(Debug, Clone, Copy, PartialEq, Eq, Structural)]
pub struct EventReturnsOptions {
    pub periods_before: u32,
    pub periods_after: u32,
    pub demeaned: bool,
    pub group_adjust: bool,
    pub by_group: bool,
}

impl Default for EventReturnsOptions {
    fn default() -> (r: Self)
        ensures
            r == (EventReturnsOptions {
                periods_before: 10,
                periods_after: 15,
                demeaned: true,
                group_adjust: false,
                by_group: false,
            }),
    {
        EventReturnsOptions {
            periods_before: 10,
            periods_after: 15,
            demeaned: true,
            group_adjust: false,
            by_group: false,
        }
    }
}

impl EventReturnsOptions {
    pub fn with_periods_before(self, periods_before: u32) -> (r: Self)
        ensures
            r == (EventReturnsOptions { periods_before, ..self }),
    {
        EventReturnsOptions { periods_before, ..self }
    }

    pub fn with_periods_after(self, periods_after: u32) -> (r: Self)
        ensures
            r == (EventReturnsOptions { periods_after, ..self }),
    {
        EventReturnsOptions { periods_after, ..self }
    }

    pub fn with_demeaned(self, demeaned: bool) -> (r: Self)
        ensures
            r == (EventReturnsOptions { demeaned, ..self }),
    {
        EventReturnsOptions { demeaned, ..self }
    }

    pub fn with_group_adjust(self, group_adjust: bool) -> (r: Self)
        ensures
            r == (EventReturnsOptions { group_adjust, ..self }),
    {
        EventReturnsOptions { group_adjust, ..self }
    }

    pub fn with_by_group(self, by_group: bool) -> (r: Self)
        ensures
            r == (EventReturnsOptions { by_group, ..self }),
    {
        EventReturnsOptions { by_group, ..self }
    }
}

/// The window and shape of common-start returns.
#[derive(Debug, Clone, Copy, PartialEq, Eq, Structural)]
pub struct CommonStartReturnsOptions {
    pub periods_before: u32,
    pub periods_after: u32,
    pub cumulative: bool,
    pub mean_by_date: bool,
    pub demeaned: bool,
}

impl Default for CommonStartReturnsOptions {
    fn default() -> (r: Self)
        ensures
            r == (CommonStartReturnsOptions {
                periods_before: 10,
                periods_after: 15,
                cumulative: false,
                mean_by_date: false,
                demeaned: false,
            }),
    {
        CommonStartReturnsOptions {
            periods_before: 10,
            periods_after: 15,
            cumulative: false,
            mean_by_date: false,
            demeaned: false,
        }
    }
}

impl CommonStartReturnsOptions {
    pub fn with_periods_before(self, periods_before: u32) -> (r: Self)
        ensures
            r == (CommonStartReturnsOptions { periods_before, ..self }),
    {
        CommonStartReturnsOptions { periods_before, ..self }
    }

    pub fn with_periods_after(self, periods_after: u32) -> (r: Self)
        ensures
            r == (CommonStartReturnsOptions { periods_after, ..self }),
    {
        CommonStartReturnsOptions { periods_after, ..self }
    }

    pub fn with_cumulative(self, cumulative: bool) -> (r: Self)
        ensures
            r == (CommonStartReturnsOptions { cumulative, ..self }),
    {
        CommonStartReturnsOptions { cumulative, ..self }
    }

    pub fn with_mean_by_date(self, mean_by_date: bool) -> (r: Self)
        ensures
            r == (CommonStartReturnsOptions { mean_by_date, ..self }),
    {
        CommonStartReturnsOptions { mean_by_date, ..self }
    }

    pub fn with_demeaned(self, demeaned: bool) -> (r: Self)
        ensures
            r == (CommonStartReturnsOptions { demeaned, ..self }),
    {
        CommonStartReturnsOptions { demeaned, ..self }
    }
}

} // verus!
