pub mod distribution;
pub mod metadata;
pub mod options;
pub mod quantiles;
pub mod returns_sheet;
pub mod row_order;
pub mod table;
pub mod tear_sheet;

pub use metadata::{FactorKey, ReportKind, ReportMetadata, CONTRACT_VERSION};
pub use table::{
    validate_table, ColumnRole, DisplayFormat, DisplayUnit, ReportColumn, ReportColumnData,
    ReportTable, ReportTimeUnit,
};
pub use tear_sheet::{
    EventReturnsReportData, EventReturnsTearSheetData, EventStudyReportData,
    EventStudyTearSheetData, FullReportData, FullTearSheetData, InformationReportData,
    InformationTearSheetData, ReturnsReportData, ReturnsTearSheetData, SummaryReportData,
    SummaryTearSheetData, TearSheetData, TurnoverReportData, TurnoverTearSheetData,
};
pub use options::{
    EventStudyTearSheetOptions, FullTearSheetOptions, InformationTearSheetOptions,
    ReturnsTearSheetOptions, SummaryTearSheetOptions, TurnoverTearSheetOptions,
};
