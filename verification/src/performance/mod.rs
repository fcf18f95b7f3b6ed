pub mod alpha_beta;
pub mod common_start;
pub mod cumulative;
pub mod dates;
pub mod events;
pub mod frame;
pub mod imputed;
pub mod options;
pub mod portfolio;
pub mod spread;
pub mod positions;
pub mod turnover;
pub mod universe;

pub use options::{
    AlphaBetaOptions, CommonStartReturnsOptions, EventReturnsOptions, IcOptions, MeanIcOptions,
    MeanReturnByQuantileOptions, PortfolioOptions, ReturnOptions, TimeBucket, WeightOptions,
};
