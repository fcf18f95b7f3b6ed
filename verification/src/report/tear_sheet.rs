use vstd::prelude::*;

use crate::error::FerricAlphaError;
use crate::performance::options::EventReturnsOptions;
use crate::report::metadata::{validate_metadata, ReportKind, ReportMetadata, CONTRACT_VERSION};
use crate::report::options::{
    EventStudyTearSheetOptions, FullTearSheetOptions, InformationTearSheetOptions,
    ReturnsTearSheetOptions, SummaryTearSheetOptions, TurnoverTearSheetOptions,
};
use crate::report::table::ReportTable;
use crate::text::str_eq;

verus! {

/// The tables of the returns tear sheet.
#[derive(Debug, PartialEq)]
pub struct ReturnsReportData {
    pub summary: ReportTable,
    pub mean_by_quantile: ReportTable,
    pub daily_by_quantile: ReportTable,
    pub daily_spread: ReportTable,
    pub factor_returns: ReportTable,
    pub group_mean_by_quantile: Option<ReportTable>,
    pub factor_cumulative_1d: Option<ReportTable>,
    pub quantile_cumulative_1d: Option<ReportTable>,
}

#[derive(Debug, PartialEq)]
pub struct ReturnsTearSheetData {
    pub metadata: ReportMetadata,
    pub options: ReturnsTearSheetOptions,
    pub data: ReturnsReportData,
}

/// The tables of the information tear sheet.
#[derive(Debug, PartialEq)]
pub struct InformationReportData {
    pub summary: ReportTable,
    pub ic_by_date: ReportTable,
    pub ic_rolling: ReportTable,
    pub ic_monthly: ReportTable,
    pub ic_by_group: Option<ReportTable>,
    pub qq_normal: ReportTable,
}

#[derive(Debug, PartialEq)]
pub struct InformationTearSheetData {
    pub metadata: ReportMetadata,
    pub options: InformationTearSheetOptions,
    pub data: InformationReportData,
}

/// The tables of the turnover tear sheet.
#[derive(Debug, PartialEq)]
pub struct TurnoverReportData {
    pub mean_by_quantile: ReportTable,
    pub mean_rank_autocorrelation: ReportTable,
    pub quantile_series: ReportTable,
    pub rank_autocorrelation_series: ReportTable,
}

#[derive(Debug, PartialEq)]
pub struct TurnoverTearSheetData {
    pub metadata: ReportMetadata,
    pub options: TurnoverTearSheetOptions,
    pub data: TurnoverReportData,
}

/// The tables of the summary tear sheet.
#[derive(Debug, PartialEq)]
pub struct SummaryReportData {
    pub quantile_statistics: ReportTable,
    pub returns_summary: ReportTable,
    pub returns_mean_by_quantile: ReportTable,
    pub information_summary: ReportTable,
    pub turnover_mean_by_quantile: ReportTable,
    pub turnover_mean_rank_autocorrelation: ReportTable,
}

#[derive(Debug, PartialEq)]
pub struct SummaryTearSheetData {
    pub metadata: ReportMetadata,
    pub options: SummaryTearSheetOptions,
    pub data: SummaryReportData,
}

/// The tables of the full tear sheet.
#[derive(Debug, PartialEq)]
pub struct FullReportData {
    pub quantile_statistics: ReportTable,
    pub returns: ReturnsReportData,
    pub information: InformationReportData,
    pub turnover: TurnoverReportData,
}

#[derive(Debug, PartialEq)]
pub struct FullTearSheetData {
    pub metadata: ReportMetadata,
    pub options: FullTearSheetOptions,
    pub data: FullReportData,
}

/// The tables of the event-returns tear sheet.
#[derive(Debug, PartialEq)]
pub struct EventReturnsReportData {
    pub average_cumulative_returns: ReportTable,
    pub coverage: ReportTable,
}

#[derive(Debug, PartialEq)]
pub struct EventReturnsTearSheetData {
    pub metadata: ReportMetadata,
    pub options: EventReturnsOptions,
    pub data: EventReturnsReportData,
}

/// The tables of the event-study tear sheet.
#[derive(Debug, PartialEq)]
pub struct EventStudyReportData {
    pub quantile_statistics: ReportTable,
    pub distribution: ReportTable,
    pub event_returns: Option<EventReturnsReportData>,
    pub mean_by_quantile: ReportTable,
    pub daily_by_quantile: ReportTable,
}

#[derive(Debug, PartialEq)]
pub struct EventStudyTearSheetData {
    pub metadata: ReportMetadata,
    pub options: EventStudyTearSheetOptions,
    pub data: EventStudyReportData,
}

/// A tear sheet of any kind.
#[derive(Debug, PartialEq)]
pub enum TearSheetData {
    Summary(SummaryTearSheetData),
    Returns(ReturnsTearSheetData),
    Information(InformationTearSheetData),
    Turnover(TurnoverTearSheetData),
    Full(FullTearSheetData),
    EventReturns(EventReturnsTearSheetData),
    EventStudy(EventStudyTearSheetData),
}

pub open spec fn opt_table(t: Option<ReportTable>) -> Seq<ReportTable> {
    match t {
        Some(x) => seq![x],
        None => Seq::empty(),
    }
}

pub open spec fn returns_required(d: ReturnsReportData) -> Seq<ReportTable> {
    seq![d.summary, d.mean_by_quantile, d.daily_by_quantile, d.daily_spread, d.factor_returns]
}

pub open spec fn returns_optional(d: ReturnsReportData) -> Seq<ReportTable> {
    opt_table(d.group_mean_by_quantile) + opt_table(d.factor_cumulative_1d) + opt_table(
        d.quantile_cumulative_1d,
    )
}

pub open spec fn information_required(d: InformationReportData) -> Seq<ReportTable> {
    seq![d.summary, d.ic_by_date, d.ic_rolling, d.ic_monthly, d.qq_normal]
}

pub open spec fn turnover_list(d: TurnoverReportData) -> Seq<ReportTable> {
    seq![d.mean_by_quantile, d.mean_rank_autocorrelation, d.quantile_series, d.rank_autocorrelation_series]
}

pub open spec fn summary_list(d: SummaryReportData) -> Seq<ReportTable> {
    seq![
        d.quantile_statistics,
        d.returns_summary,
        d.returns_mean_by_quantile,
        d.information_summary,
        d.turnover_mean_by_quantile,
        d.turnover_mean_rank_autocorrelation,
    ]
}

pub open spec fn event_returns_list(d: EventReturnsReportData) -> Seq<ReportTable> {
    seq![d.average_cumulative_returns, d.coverage]
}

pub open spec fn event_study_list(d: EventStudyReportData) -> Seq<ReportTable> {
    seq![d.quantile_statistics, d.distribution] + match d.event_returns {
        Some(e) => event_returns_list(e),
        None => Seq::empty(),
    } + seq![d.mean_by_quantile, d.daily_by_quantile]
}

/// The tables of a full tear sheet: every required table of its parts, then the optional ones.
pub open spec fn full_list(d: FullReportData) -> Seq<ReportTable> {
    seq![d.quantile_statistics] + returns_required(d.returns) + information_required(
        d.information,
    ) + turnover_list(d.turnover) + returns_optional(d.returns) + opt_table(d.information.ic_by_group)
}

/// The tables a tear sheet holds, in order.
pub open spec fn sheet_tables(t: TearSheetData) -> Seq<ReportTable> {
    match t {
        TearSheetData::Summary(r) => summary_list(r.data),
        TearSheetData::Returns(r) => returns_required(r.data) + returns_optional(r.data),
        TearSheetData::Information(r) => information_required(r.data) + opt_table(r.data.ic_by_group),
        TearSheetData::Turnover(r) => turnover_list(r.data),
        TearSheetData::Full(r) => full_list(r.data),
        TearSheetData::EventReturns(r) => event_returns_list(r.data),
        TearSheetData::EventStudy(r) => event_study_list(r.data),
    }
}

pub open spec fn sheet_metadata(t: TearSheetData) -> ReportMetadata {
    match t {
        TearSheetData::Summary(r) => r.metadata,
        TearSheetData::Returns(r) => r.metadata,
        TearSheetData::Information(r) => r.metadata,
        TearSheetData::Turnover(r) => r.metadata,
        TearSheetData::Full(r) => r.metadata,
        TearSheetData::EventReturns(r) => r.metadata,
        TearSheetData::EventStudy(r) => r.metadata,
    }
}

/// The kind of report a tear sheet's body is.
pub open spec fn sheet_kind(t: TearSheetData) -> ReportKind {
    match t {
        TearSheetData::Summary(_) => ReportKind::Summary,
        TearSheetData::Returns(_) => ReportKind::Returns,
        TearSheetData::Information(_) => ReportKind::Information,
        TearSheetData::Turnover(_) => ReportKind::Turnover,
        TearSheetData::Full(_) => ReportKind::Full,
        TearSheetData::EventReturns(_) => ReportKind::EventReturns,
        TearSheetData::EventStudy(_) => ReportKind::EventStudy,
    }
}

pub open spec fn opt_id_is(t: Option<ReportTable>, id: Seq<char>) -> bool {
    t matches Some(x) ==> x.spec_id() == id
}

pub open spec fn returns_ids_ok(d: ReturnsReportData) -> bool {
    &&& d.summary.spec_id() == "returns.summary"@
    &&& d.mean_by_quantile.spec_id() == "returns.mean_by_quantile"@
    &&& d.daily_by_quantile.spec_id() == "returns.daily_by_quantile"@
    &&& d.daily_spread.spec_id() == "returns.daily_spread"@
    &&& d.factor_returns.spec_id() == "returns.factor_returns"@
    &&& opt_id_is(d.group_mean_by_quantile, "returns.group_mean_by_quantile"@)
    &&& opt_id_is(d.factor_cumulative_1d, "returns.factor_cumulative_1d"@)
    &&& opt_id_is(d.quantile_cumulative_1d, "returns.quantile_cumulative_1d"@)
}

pub open spec fn information_ids_ok(d: InformationReportData) -> bool {
    &&& d.summary.spec_id() == "information.summary"@
    &&& d.ic_by_date.spec_id() == "information.ic_by_date"@
    &&& d.ic_rolling.spec_id() == "information.ic_rolling"@
    &&& d.ic_monthly.spec_id() == "information.ic_monthly"@
    &&& d.qq_normal.spec_id() == "information.qq_normal"@
    &&& opt_id_is(d.ic_by_group, "information.ic_by_group"@)
}

pub open spec fn turnover_ids_ok(d: TurnoverReportData) -> bool {
    &&& d.mean_by_quantile.spec_id() == "turnover.mean_by_quantile"@
    &&& d.mean_rank_autocorrelation.spec_id() == "turnover.mean_rank_autocorrelation"@
    &&& d.quantile_series.spec_id() == "turnover.quantile_series"@
    &&& d.rank_autocorrelation_series.spec_id() == "turnover.rank_autocorrelation_series"@
}

pub open spec fn summary_ids_ok(d: SummaryReportData) -> bool {
    &&& d.quantile_statistics.spec_id() == "quantile.statistics"@
    &&& d.returns_summary.spec_id() == "returns.summary"@
    &&& d.returns_mean_by_quantile.spec_id() == "returns.mean_by_quantile"@
    &&& d.information_summary.spec_id() == "information.summary"@
    &&& d.turnover_mean_by_quantile.spec_id() == "turnover.mean_by_quantile"@
    &&& d.turnover_mean_rank_autocorrelation.spec_id() == "turnover.mean_rank_autocorrelation"@
}

pub open spec fn event_returns_ids_ok(d: EventReturnsReportData) -> bool {
    &&& d.average_cumulative_returns.spec_id() == "events.average_cumulative_returns"@
    &&& d.coverage.spec_id() == "events.coverage"@
}

pub open spec fn event_study_ids_ok(d: EventStudyReportData) -> bool {
    &&& d.quantile_statistics.spec_id() == "quantile.statistics"@
    &&& d.distribution.spec_id() == "events.distribution"@
    &&& (d.event_returns matches Some(e) ==> event_returns_ids_ok(e))
    &&& d.mean_by_quantile.spec_id() == "returns.mean_by_quantile"@
    &&& d.daily_by_quantile.spec_id() == "returns.daily_by_quantile"@
}

/// Every table of the tear sheet carries the id its place calls for.
pub open spec fn sheet_ids_ok(t: TearSheetData) -> bool {
    match t {
        TearSheetData::Summary(r) => summary_ids_ok(r.data),
        TearSheetData::Returns(r) => returns_ids_ok(r.data),
        TearSheetData::Information(r) => information_ids_ok(r.data),
        TearSheetData::Turnover(r) => turnover_ids_ok(r.data),
        TearSheetData::Full(r) => {
            &&& r.data.quantile_statistics.spec_id() == "quantile.statistics"@
            &&& returns_ids_ok(r.data.returns)
            &&& information_ids_ok(r.data.information)
            &&& turnover_ids_ok(r.data.turnover)
        },
        TearSheetData::EventReturns(r) => event_returns_ids_ok(r.data),
        TearSheetData::EventStudy(r) => event_study_ids_ok(r.data),
    }
}

/// No two tables share an id.
pub open spec fn ids_distinct(tables: Seq<ReportTable>) -> bool {
    forall|i: int, j: int|
        0 <= i < j < tables.len() ==> #[trigger] tables[i].spec_id() != #[trigger] tables[j].spec_id()
}

pub open spec fn derefs(v: Seq<&ReportTable>) -> Seq<ReportTable> {
    v.map_values(|t: &ReportTable| *t)
}

pub open spec fn report_error(operation: &'static str, reason: &'static str) -> FerricAlphaError {
    FerricAlphaError::InvalidReport { operation, reason }
}

fn push_table<'a>(v: &mut Vec<&'a ReportTable>, t: &'a ReportTable)
    ensures
        derefs(final(v)@) == derefs(old(v)@) + seq![*t],
{
    let ghost before = derefs(v@);
    v.push(t);
    assert(derefs(v@) =~= before + seq![*t]);
}

fn push_optional<'a>(v: &mut Vec<&'a ReportTable>, t: &'a Option<ReportTable>)
    ensures
        derefs(final(v)@) == derefs(old(v)@) + opt_table(*t),
{
    match t {
        Some(x) => push_table(v, x),
        None => {
            assert(derefs(v@) =~= derefs(v@) + opt_table(*t));
        },
    }
}

fn push_returns_required<'a>(v: &mut Vec<&'a ReportTable>, d: &'a ReturnsReportData)
    ensures
        derefs(final(v)@) == derefs(old(v)@) + returns_required(*d),
{
    let ghost before = derefs(v@);
    push_table(v, &d.summary);
    push_table(v, &d.mean_by_quantile);
    push_table(v, &d.daily_by_quantile);
    push_table(v, &d.daily_spread);
    push_table(v, &d.factor_returns);
    assert(derefs(v@) =~= before + returns_required(*d));
}

fn push_returns_optional<'a>(v: &mut Vec<&'a ReportTable>, d: &'a ReturnsReportData)
    ensures
        derefs(final(v)@) == derefs(old(v)@) + returns_optional(*d),
{
    let ghost before = derefs(v@);
    push_optional(v, &d.group_mean_by_quantile);
    push_optional(v, &d.factor_cumulative_1d);
    push_optional(v, &d.quantile_cumulative_1d);
    assert(derefs(v@) =~= before + returns_optional(*d));
}

fn push_information_required<'a>(v: &mut Vec<&'a ReportTable>, d: &'a InformationReportData)
    ensures
        derefs(final(v)@) == derefs(old(v)@) + information_required(*d),
{
    let ghost before = derefs(v@);
    push_table(v, &d.summary);
    push_table(v, &d.ic_by_date);
    push_table(v, &d.ic_rolling);
    push_table(v, &d.ic_monthly);
    push_table(v, &d.qq_normal);
    assert(derefs(v@) =~= before + information_required(*d));
}

fn push_turnover<'a>(v: &mut Vec<&'a ReportTable>, d: &'a TurnoverReportData)
    ensures
        derefs(final(v)@) == derefs(old(v)@) + turnover_list(*d),
{
    let ghost before = derefs(v@);
    push_table(v, &d.mean_by_quantile);
    push_table(v, &d.mean_rank_autocorrelation);
    push_table(v, &d.quantile_series);
    push_table(v, &d.rank_autocorrelation_series);
    assert(derefs(v@) =~= before + turnover_list(*d));
}

fn push_event_returns<'a>(v: &mut Vec<&'a ReportTable>, d: &'a EventReturnsReportData)
    ensures
        derefs(final(v)@) == derefs(old(v)@) + event_returns_list(*d),
{
    let ghost before = derefs(v@);
    push_table(v, &d.average_cumulative_returns);
    push_table(v, &d.coverage);
    assert(derefs(v@) =~= before + event_returns_list(*d));
}

/// The tables of a full tear sheet's parts, in the order `full_list` gives.
fn full_table_refs<'a>(
    quantile_statistics: &'a ReportTable,
    returns_data: &'a ReturnsReportData,
    information: &'a InformationReportData,
    turnover: &'a TurnoverReportData,
) -> (r: Vec<&'a ReportTable>)
    ensures
        derefs(r@) == seq![*quantile_statistics] + returns_required(*returns_data)
            + information_required(*information) + turnover_list(*turnover) + returns_optional(
            *returns_data,
        ) + opt_table(information.ic_by_group),
{
    let mut v: Vec<&ReportTable> = Vec::new();
    assert(derefs(v@) =~= Seq::<ReportTable>::empty());
    push_table(&mut v, quantile_statistics);
    assert(derefs(v@) =~= seq![*quantile_statistics]);
    push_returns_required(&mut v, returns_data);
    push_information_required(&mut v, information);
    push_turnover(&mut v, turnover);
    push_returns_optional(&mut v, returns_data);
    push_optional(&mut v, &information.ic_by_group);
    v
}

/// Whether the ids of a list of tables are all different.
pub fn unique_table_ids(tables: &[&ReportTable]) -> (r: bool)
    ensures
        r == ids_distinct(derefs(tables@)),
{
    let ghost ts = derefs(tables@);
    let n: usize = tables.len();
    let mut j: usize = 0;
    while j < n
        invariant
            n == tables@.len(),
            ts == derefs(tables@),
            j <= n,
            forall|a: int, b: int| 0 <= a < b < j ==> #[trigger] ts[a].spec_id() != #[trigger] ts[b].spec_id(),
        decreases n - j,
    {
        let mut i: usize = 0;
        while i < j
            invariant
                n == tables@.len(),
                ts == derefs(tables@),
                i <= j < n,
                forall|a: int, b: int| 0 <= a < b < j ==> #[trigger] ts[a].spec_id() != #[trigger] ts[b].spec_id(),
                forall|a: int| 0 <= a < i ==> #[trigger] ts[a].spec_id() != ts[j as int].spec_id(),
            decreases j - i,
        {
            if str_eq(tables[i].id(), tables[j].id()) {
                assert(ts[i as int].spec_id() == ts[j as int].spec_id());
                return false;
            }
            i = i + 1;
        }
        j = j + 1;
    }
    true
}

/// Checks that the tables of a new full tear sheet have different ids.
pub fn validate_unique_full_ids(
    quantile_statistics: &ReportTable,
    returns_data: &ReturnsReportData,
    information: &InformationReportData,
    turnover: &TurnoverReportData,
) -> (r: Result<(), FerricAlphaError>)
    ensures
        ({
            let tables = seq![*quantile_statistics] + returns_required(*returns_data) + information_required(
                *information,
            ) + turnover_list(*turnover) + returns_optional(*returns_data) + opt_table(
                information.ic_by_group,
            );
            if ids_distinct(tables) {
                r is Ok
            } else {
                r == Err::<(), FerricAlphaError>(
                    report_error("create_full_tear_sheet_data", "duplicate table id"),
                )
            }
        }),
{
    let tables = full_table_refs(quantile_statistics, returns_data, information, turnover);
    if unique_table_ids(tables.as_slice()) {
        Ok(())
    } else {
        Err(FerricAlphaError::InvalidReport {
            operation: "create_full_tear_sheet_data",
            reason: "duplicate table id",
        })
    }
}

/// Whether a table carries the expected id.
fn has_id(table: &ReportTable, expected: &str) -> (r: bool)
    ensures
        r == (table.spec_id() == expected@),
{
    str_eq(table.id(), expected)
}

fn has_optional_id(table: &Option<ReportTable>, expected: &str) -> (r: bool)
    ensures
        r == opt_id_is(*table, expected@),
{
    match table {
        Some(t) => has_id(t, expected),
        None => true,
    }
}

fn returns_ids_match(d: &ReturnsReportData) -> (r: bool)
    ensures
        r == returns_ids_ok(*d),
{
    has_id(&d.summary, "returns.summary") && has_id(&d.mean_by_quantile, "returns.mean_by_quantile")
        && has_id(&d.daily_by_quantile, "returns.daily_by_quantile") && has_id(
        &d.daily_spread,
        "returns.daily_spread",
    ) && has_id(&d.factor_returns, "returns.factor_returns") && has_optional_id(
        &d.group_mean_by_quantile,
        "returns.group_mean_by_quantile",
    ) && has_optional_id(&d.factor_cumulative_1d, "returns.factor_cumulative_1d")
        && has_optional_id(&d.quantile_cumulative_1d, "returns.quantile_cumulative_1d")
}

fn information_ids_match(d: &InformationReportData) -> (r: bool)
    ensures
        r == information_ids_ok(*d),
{
    has_id(&d.summary, "information.summary") && has_id(&d.ic_by_date, "information.ic_by_date")
        && has_id(&d.ic_rolling, "information.ic_rolling") && has_id(
        &d.ic_monthly,
        "information.ic_monthly",
    ) && has_id(&d.qq_normal, "information.qq_normal") && has_optional_id(
        &d.ic_by_group,
        "information.ic_by_group",
    )
}

fn turnover_ids_match(d: &TurnoverReportData) -> (r: bool)
    ensures
        r == turnover_ids_ok(*d),
{
    has_id(&d.mean_by_quantile, "turnover.mean_by_quantile") && has_id(
        &d.mean_rank_autocorrelation,
        "turnover.mean_rank_autocorrelation",
    ) && has_id(&d.quantile_series, "turnover.quantile_series") && has_id(
        &d.rank_autocorrelation_series,
        "turnover.rank_autocorrelation_series",
    )
}

fn summary_ids_match(d: &SummaryReportData) -> (r: bool)
    ensures
        r == summary_ids_ok(*d),
{
    has_id(&d.quantile_statistics, "quantile.statistics") && has_id(
        &d.returns_summary,
        "returns.summary",
    ) && has_id(&d.returns_mean_by_quantile, "returns.mean_by_quantile") && has_id(
        &d.information_summary,
        "information.summary",
    ) && has_id(&d.turnover_mean_by_quantile, "turnover.mean_by_quantile") && has_id(
        &d.turnover_mean_rank_autocorrelation,
        "turnover.mean_rank_autocorrelation",
    )
}

fn event_returns_ids_match(d: &EventReturnsReportData) -> (r: bool)
    ensures
        r == event_returns_ids_ok(*d),
{
    has_id(&d.average_cumulative_returns, "events.average_cumulative_returns") && has_id(
        &d.coverage,
        "events.coverage",
    )
}

fn event_study_ids_match(d: &EventStudyReportData) -> (r: bool)
    ensures
        r == event_study_ids_ok(*d),
{
    let nested: bool = match &d.event_returns {
        Some(e) => event_returns_ids_match(e),
        None => true,
    };
    has_id(&d.quantile_statistics, "quantile.statistics") && has_id(
        &d.distribution,
        "events.distribution",
    ) && nested && has_id(&d.mean_by_quantile, "returns.mean_by_quantile") && has_id(
        &d.daily_by_quantile,
        "returns.daily_by_quantile",
    )
}

impl TearSheetData {
    /// The tables of the tear sheet, in order.
    pub fn tables(&self) -> (r: Vec<&ReportTable>)
        ensures
            derefs(r@) == sheet_tables(*self),
    {
        let mut v: Vec<&ReportTable> = Vec::new();
        assert(derefs(v@) =~= Seq::<ReportTable>::empty());
        match self {
            TearSheetData::Summary(r) => {
                push_table(&mut v, &r.data.quantile_statistics);
                push_table(&mut v, &r.data.returns_summary);
                push_table(&mut v, &r.data.returns_mean_by_quantile);
                push_table(&mut v, &r.data.information_summary);
                push_table(&mut v, &r.data.turnover_mean_by_quantile);
                push_table(&mut v, &r.data.turnover_mean_rank_autocorrelation);
                assert(derefs(v@) =~= summary_list(r.data));
            },
            TearSheetData::Returns(r) => {
                push_returns_required(&mut v, &r.data);
                push_returns_optional(&mut v, &r.data);
                assert(derefs(v@) =~= returns_required(r.data) + returns_optional(r.data));
            },
            TearSheetData::Information(r) => {
                push_information_required(&mut v, &r.data);
                push_optional(&mut v, &r.data.ic_by_group);
                assert(derefs(v@) =~= information_required(r.data) + opt_table(r.data.ic_by_group));
            },
            TearSheetData::Turnover(r) => {
                push_turnover(&mut v, &r.data);
                assert(derefs(v@) =~= turnover_list(r.data));
            },
            TearSheetData::Full(r) => {
                v = full_table_refs(
                    &r.data.quantile_statistics,
                    &r.data.returns,
                    &r.data.information,
                    &r.data.turnover,
                );
            },
            TearSheetData::EventReturns(r) => {
                push_event_returns(&mut v, &r.data);
                assert(derefs(v@) =~= event_returns_list(r.data));
            },
            TearSheetData::EventStudy(r) => {
                push_table(&mut v, &r.data.quantile_statistics);
                push_table(&mut v, &r.data.distribution);
                match &r.data.event_returns {
                    Some(e) => push_event_returns(&mut v, e),
                    None => {},
                }
                push_table(&mut v, &r.data.mean_by_quantile);
                push_table(&mut v, &r.data.daily_by_quantile);
                assert(derefs(v@) =~= event_study_list(r.data));
            },
        }
        v
    }

    /// The ids of the tables, in order.
    pub fn table_ids(&self) -> (r: Vec<&str>)
        ensures
            r@.len() == sheet_tables(*self).len(),
            forall|i: int| 0 <= i < r@.len() ==> (#[trigger] r@[i])@ == sheet_tables(*self)[i].spec_id(),
    {
        let tables = self.tables();
        let ghost ts = derefs(tables@);
        let mut ids: Vec<&str> = Vec::new();
        let mut i: usize = 0;
        while i < tables.len()
            invariant
                ts == derefs(tables@),
                ts == sheet_tables(*self),
                i <= tables@.len(),
                ids@.len() == i,
                forall|k: int| 0 <= k < i ==> (#[trigger] ids@[k])@ == ts[k].spec_id(),
            decreases tables@.len() - i,
        {
            ids.push(tables[i].id());
            i = i + 1;
        }
        ids
    }

    /// The first table with this id.
    pub fn table(&self, id: &str) -> (r: Option<&ReportTable>)
        ensures
            match r {
                Some(t) => exists|i: int|
                    0 <= i < sheet_tables(*self).len() && #[trigger] sheet_tables(*self)[i] == *t
                        && t.spec_id() == id@ && forall|j: int|
                        0 <= j < i ==> (#[trigger] sheet_tables(*self)[j]).spec_id() != id@,
                None => forall|i: int|
                    0 <= i < sheet_tables(*self).len() ==> (#[trigger] sheet_tables(
                        *self,
                    )[i]).spec_id() != id@,
            },
    {
        let tables = self.tables();
        let ghost ts = derefs(tables@);
        let mut i: usize = 0;
        while i < tables.len()
            invariant
                ts == derefs(tables@),
                ts == sheet_tables(*self),
                i <= tables@.len(),
                forall|k: int| 0 <= k < i ==> (#[trigger] ts[k]).spec_id() != id@,
            decreases tables@.len() - i,
        {
            let t: &ReportTable = tables[i];
            if str_eq(t.id(), id) {
                assert(ts[i as int] == *t);
                return Some(t);
            }
            i = i + 1;
        }
        None
    }

    pub fn metadata(&self) -> (r: &ReportMetadata)
        ensures
            *r == sheet_metadata(*self),
    {
        match self {
            TearSheetData::Summary(r) => &r.metadata,
            TearSheetData::Returns(r) => &r.metadata,
            TearSheetData::Information(r) => &r.metadata,
            TearSheetData::Turnover(r) => &r.metadata,
            TearSheetData::Full(r) => &r.metadata,
            TearSheetData::EventReturns(r) => &r.metadata,
            TearSheetData::EventStudy(r) => &r.metadata,
        }
    }

    /// The kind of report the body holds.
    pub fn kind(&self) -> (r: ReportKind)
        ensures
            r == sheet_kind(*self),
    {
        match self {
            TearSheetData::Summary(_) => ReportKind::Summary,
            TearSheetData::Returns(_) => ReportKind::Returns,
            TearSheetData::Information(_) => ReportKind::Information,
            TearSheetData::Turnover(_) => ReportKind::Turnover,
            TearSheetData::Full(_) => ReportKind::Full,
            TearSheetData::EventReturns(_) => ReportKind::EventReturns,
            TearSheetData::EventStudy(_) => ReportKind::EventStudy,
        }
    }

    /// Whether every table carries the id its place calls for.
    fn ids_match(&self) -> (r: bool)
        ensures
            r == sheet_ids_ok(*self),
    {
        match self {
            TearSheetData::Summary(r) => summary_ids_match(&r.data),
            TearSheetData::Returns(r) => returns_ids_match(&r.data),
            TearSheetData::Information(r) => information_ids_match(&r.data),
            TearSheetData::Turnover(r) => turnover_ids_match(&r.data),
            TearSheetData::Full(r) => has_id(&r.data.quantile_statistics, "quantile.statistics")
                && returns_ids_match(&r.data.returns) && information_ids_match(&r.data.information)
                && turnover_ids_match(&r.data.turnover),
            TearSheetData::EventReturns(r) => event_returns_ids_match(&r.data),
            TearSheetData::EventStudy(r) => event_study_ids_match(&r.data),
        }
    }

    /// Checks a tear sheet read back from storage: the contract version and kind of its
    /// metadata, the id of every table, and that no two tables share an id. Each table has
    /// passed its own checks when it was read.
    pub fn validate(&self) -> (r: Result<(), FerricAlphaError>)
        ensures
            ({
                let m = sheet_metadata(*self);
                if m.spec_contract_version() != CONTRACT_VERSION@ {
                    r matches Err(FerricAlphaError::ReportVersion { expected, actual }) && expected
                        == CONTRACT_VERSION && actual@ == m.spec_contract_version()
                } else if m.spec_report_kind() != sheet_kind(*self) {
                    r == Err::<(), FerricAlphaError>(
                        report_error("TearSheetData::from_json", "report kind/body mismatch"),
                    )
                } else if !sheet_ids_ok(*self) {
                    r == Err::<(), FerricAlphaError>(
                        report_error("TearSheetData::from_json", "unexpected table id"),
                    )
                } else if !ids_distinct(sheet_tables(*self)) {
                    r == Err::<(), FerricAlphaError>(
                        report_error("TearSheetData::from_json", "duplicate table id"),
                    )
                } else {
                    r is Ok
                }
            }),
    {
        let kind = self.kind();
        match validate_metadata(self.metadata(), kind) {
            Err(e) => {
                return Err(e);
            },
            Ok(()) => {},
        }
        if !self.ids_match() {
            return Err(
                FerricAlphaError::InvalidReport {
                    operation: "TearSheetData::from_json",
                    reason: "unexpected table id",
                },
            );
        }
        let tables = self.tables();
        if !unique_table_ids(tables.as_slice()) {
            return Err(
                FerricAlphaError::InvalidReport {
                    operation: "TearSheetData::from_json",
                    reason: "duplicate table id",
                },
            );
        }
        Ok(())
    }
}


/// The place of a table id in the order tear sheets list their tables; -1 for any other text.
pub open spec fn id_rank(s: Seq<char>) -> int {
    if s == "quantile.statistics"@ {
        0
    } else if s == "events.distribution"@ {
        1
    } else if s == "events.average_cumulative_returns"@ {
        2
    } else if s == "events.coverage"@ {
        3
    } else if s == "returns.summary"@ {
        4
    } else if s == "returns.mean_by_quantile"@ {
        5
    } else if s == "returns.daily_by_quantile"@ {
        6
    } else if s == "returns.daily_spread"@ {
        7
    } else if s == "returns.factor_returns"@ {
        8
    } else if s == "information.summary"@ {
        9
    } else if s == "information.ic_by_date"@ {
        10
    } else if s == "information.ic_rolling"@ {
        11
    } else if s == "information.ic_monthly"@ {
        12
    } else if s == "information.qq_normal"@ {
        13
    } else if s == "turnover.mean_by_quantile"@ {
        14
    } else if s == "turnover.mean_rank_autocorrelation"@ {
        15
    } else if s == "turnover.quantile_series"@ {
        16
    } else if s == "turnover.rank_autocorrelation_series"@ {
        17
    } else if s == "returns.group_mean_by_quantile"@ {
        18
    } else if s == "returns.factor_cumulative_1d"@ {
        19
    } else if s == "returns.quantile_cumulative_1d"@ {
        20
    } else if s == "information.ic_by_group"@ {
        21
    } else {
        -1
    }
}

/// Each id a tear sheet can hold has its own place.
proof fn lemma_id_ranks()
    ensures
        id_rank("quantile.statistics"@) == 0,
        id_rank("events.distribution"@) == 1,
        id_rank("events.average_cumulative_returns"@) == 2,
        id_rank("events.coverage"@) == 3,
        id_rank("returns.summary"@) == 4,
        id_rank("returns.mean_by_quantile"@) == 5,
        id_rank("returns.daily_by_quantile"@) == 6,
        id_rank("returns.daily_spread"@) == 7,
        id_rank("returns.factor_returns"@) == 8,
        id_rank("information.summary"@) == 9,
        id_rank("information.ic_by_date"@) == 10,
        id_rank("information.ic_rolling"@) == 11,
        id_rank("information.ic_monthly"@) == 12,
        id_rank("information.qq_normal"@) == 13,
        id_rank("turnover.mean_by_quantile"@) == 14,
        id_rank("turnover.mean_rank_autocorrelation"@) == 15,
        id_rank("turnover.quantile_series"@) == 16,
        id_rank("turnover.rank_autocorrelation_series"@) == 17,
        id_rank("returns.group_mean_by_quantile"@) == 18,
        id_rank("returns.factor_cumulative_1d"@) == 19,
        id_rank("returns.quantile_cumulative_1d"@) == 20,
        id_rank("information.ic_by_group"@) == 21,
{
    reveal_strlit("quantile.statistics");
    reveal_strlit("events.distribution");
    reveal_strlit("events.average_cumulative_returns");
    reveal_strlit("events.coverage");
    reveal_strlit("returns.summary");
    reveal_strlit("returns.mean_by_quantile");
    reveal_strlit("returns.daily_by_quantile");
    reveal_strlit("returns.daily_spread");
    reveal_strlit("returns.factor_returns");
    reveal_strlit("information.summary");
    reveal_strlit("information.ic_by_date");
    reveal_strlit("information.ic_rolling");
    reveal_strlit("information.ic_monthly");
    reveal_strlit("information.qq_normal");
    reveal_strlit("turnover.mean_by_quantile");
    reveal_strlit("turnover.mean_rank_autocorrelation");
    reveal_strlit("turnover.quantile_series");
    reveal_strlit("turnover.rank_autocorrelation_series");
    reveal_strlit("returns.group_mean_by_quantile");
    reveal_strlit("returns.factor_cumulative_1d");
    reveal_strlit("returns.quantile_cumulative_1d");
    reveal_strlit("information.ic_by_group");
    assert("quantile.statistics"@.len() == 19);
    assert("events.distribution"@.len() == 19);
    assert("events.average_cumulative_returns"@.len() == 33);
    assert("events.coverage"@.len() == 15);
    assert("returns.summary"@.len() == 15);
    assert("returns.mean_by_quantile"@.len() == 24);
    assert("returns.daily_by_quantile"@.len() == 25);
    assert("returns.daily_spread"@.len() == 20);
    assert("returns.factor_returns"@.len() == 22);
    assert("information.summary"@.len() == 19);
    assert("information.ic_by_date"@.len() == 22);
    assert("information.ic_rolling"@.len() == 22);
    assert("information.ic_monthly"@.len() == 22);
    assert("information.qq_normal"@.len() == 21);
    assert("turnover.mean_by_quantile"@.len() == 25);
    assert("turnover.mean_rank_autocorrelation"@.len() == 34);
    assert("turnover.quantile_series"@.len() == 24);
    assert("turnover.rank_autocorrelation_series"@.len() == 36);
    assert("returns.group_mean_by_quantile"@.len() == 30);
    assert("returns.factor_cumulative_1d"@.len() == 28);
    assert("returns.quantile_cumulative_1d"@.len() == 30);
    assert("information.ic_by_group"@.len() == 23);
    assert("quantile.statistics"@[0] != "events.distribution"@[0]);
    assert("quantile.statistics"@ != "events.distribution"@);
    assert("quantile.statistics"@ != "events.average_cumulative_returns"@);
    assert("events.distribution"@ != "events.average_cumulative_returns"@);
    assert("quantile.statistics"@ != "events.coverage"@);
    assert("events.distribution"@ != "events.coverage"@);
    assert("events.average_cumulative_returns"@ != "events.coverage"@);
    assert("quantile.statistics"@ != "returns.summary"@);
    assert("events.distribution"@ != "returns.summary"@);
    assert("events.average_cumulative_returns"@ != "returns.summary"@);
    assert("events.coverage"@[0] != "returns.summary"@[0]);
    assert("events.coverage"@ != "returns.summary"@);
    assert("quantile.statistics"@ != "returns.mean_by_quantile"@);
    assert("events.distribution"@ != "returns.mean_by_quantile"@);
    assert("events.average_cumulative_returns"@ != "returns.mean_by_quantile"@);
    assert("events.coverage"@ != "returns.mean_by_quantile"@);
    assert("returns.summary"@ != "returns.mean_by_quantile"@);
    assert("quantile.statistics"@ != "returns.daily_by_quantile"@);
    assert("events.distribution"@ != "returns.daily_by_quantile"@);
    assert("events.average_cumulative_returns"@ != "returns.daily_by_quantile"@);
    assert("events.coverage"@ != "returns.daily_by_quantile"@);
    assert("returns.summary"@ != "returns.daily_by_quantile"@);
    assert("returns.mean_by_quantile"@ != "returns.daily_by_quantile"@);
    assert("quantile.statistics"@ != "returns.daily_spread"@);
    assert("events.distribution"@ != "returns.daily_spread"@);
    assert("events.average_cumulative_returns"@ != "returns.daily_spread"@);
    assert("events.coverage"@ != "returns.daily_spread"@);
    assert("returns.summary"@ != "returns.daily_spread"@);
    assert("returns.mean_by_quantile"@ != "returns.daily_spread"@);
    assert("returns.daily_by_quantile"@ != "returns.daily_spread"@);
    assert("quantile.statistics"@ != "returns.factor_returns"@);
    assert("events.distribution"@ != "returns.factor_returns"@);
    assert("events.average_cumulative_returns"@ != "returns.factor_returns"@);
    assert("events.coverage"@ != "returns.factor_returns"@);
    assert("returns.summary"@ != "returns.factor_returns"@);
    assert("returns.mean_by_quantile"@ != "returns.factor_returns"@);
    assert("returns.daily_by_quantile"@ != "returns.factor_returns"@);
    assert("returns.daily_spread"@ != "returns.factor_returns"@);
    assert("quantile.statistics"@[0] != "information.summary"@[0]);
    assert("quantile.statistics"@ != "information.summary"@);
    assert("events.distribution"@[0] != "information.summary"@[0]);
    assert("events.distribution"@ != "information.summary"@);
    assert("events.average_cumulative_returns"@ != "information.summary"@);
    assert("events.coverage"@ != "information.summary"@);
    assert("returns.summary"@ != "information.summary"@);
    assert("returns.mean_by_quantile"@ != "information.summary"@);
    assert("returns.daily_by_quantile"@ != "information.summary"@);
    assert("returns.daily_spread"@ != "information.summary"@);
    assert("returns.factor_returns"@ != "information.summary"@);
    assert("quantile.statistics"@ != "information.ic_by_date"@);
    assert("events.distribution"@ != "information.ic_by_date"@);
    assert("events.average_cumulative_returns"@ != "information.ic_by_date"@);
    assert("events.coverage"@ != "information.ic_by_date"@);
    assert("returns.summary"@ != "information.ic_by_date"@);
    assert("returns.mean_by_quantile"@ != "information.ic_by_date"@);
    assert("returns.daily_by_quantile"@ != "information.ic_by_date"@);
    assert("returns.daily_spread"@ != "information.ic_by_date"@);
    assert("returns.factor_returns"@[0] != "information.ic_by_date"@[0]);
    assert("returns.factor_returns"@ != "information.ic_by_date"@);
    assert("information.summary"@ != "information.ic_by_date"@);
    assert("quantile.statistics"@ != "information.ic_rolling"@);
    assert("events.distribution"@ != "information.ic_rolling"@);
    assert("events.average_cumulative_returns"@ != "information.ic_rolling"@);
    assert("events.coverage"@ != "information.ic_rolling"@);
    assert("returns.summary"@ != "information.ic_rolling"@);
    assert("returns.mean_by_quantile"@ != "information.ic_rolling"@);
    assert("returns.daily_by_quantile"@ != "information.ic_rolling"@);
    assert("returns.daily_spread"@ != "information.ic_rolling"@);
    assert("returns.factor_returns"@[0] != "information.ic_rolling"@[0]);
    assert("returns.factor_returns"@ != "information.ic_rolling"@);
    assert("information.summary"@ != "information.ic_rolling"@);
    assert("information.ic_by_date"@[15] != "information.ic_rolling"@[15]);
    assert("information.ic_by_date"@ != "information.ic_rolling"@);
    assert("quantile.statistics"@ != "information.ic_monthly"@);
    assert("events.distribution"@ != "information.ic_monthly"@);
    assert("events.average_cumulative_returns"@ != "information.ic_monthly"@);
    assert("events.coverage"@ != "information.ic_monthly"@);
    assert("returns.summary"@ != "information.ic_monthly"@);
    assert("returns.mean_by_quantile"@ != "information.ic_monthly"@);
    assert("returns.daily_by_quantile"@ != "information.ic_monthly"@);
    assert("returns.daily_spread"@ != "information.ic_monthly"@);
    assert("returns.factor_returns"@[0] != "information.ic_monthly"@[0]);
    assert("returns.factor_returns"@ != "information.ic_monthly"@);
    assert("information.summary"@ != "information.ic_monthly"@);
    assert("information.ic_by_date"@[15] != "information.ic_monthly"@[15]);
    assert("information.ic_by_date"@ != "information.ic_monthly"@);
    assert("information.ic_rolling"@[15] != "information.ic_monthly"@[15]);
    assert("information.ic_rolling"@ != "information.ic_monthly"@);
    assert("quantile.statistics"@ != "information.qq_normal"@);
    assert("events.distribution"@ != "information.qq_normal"@);
    assert("events.average_cumulative_returns"@ != "information.qq_normal"@);
    assert("events.coverage"@ != "information.qq_normal"@);
    assert("returns.summary"@ != "information.qq_normal"@);
    assert("returns.mean_by_quantile"@ != "information.qq_normal"@);
    assert("returns.daily_by_quantile"@ != "information.qq_normal"@);
    assert("returns.daily_spread"@ != "information.qq_normal"@);
    assert("returns.factor_returns"@ != "information.qq_normal"@);
    assert("information.summary"@ != "information.qq_normal"@);
    assert("information.ic_by_date"@ != "information.qq_normal"@);
    assert("information.ic_rolling"@ != "information.qq_normal"@);
    assert("information.ic_monthly"@ != "information.qq_normal"@);
    assert("quantile.statistics"@ != "turnover.mean_by_quantile"@);
    assert("events.distribution"@ != "turnover.mean_by_quantile"@);
    assert("events.average_cumulative_returns"@ != "turnover.mean_by_quantile"@);
    assert("events.coverage"@ != "turnover.mean_by_quantile"@);
    assert("returns.summary"@ != "turnover.mean_by_quantile"@);
    assert("returns.mean_by_quantile"@ != "turnover.mean_by_quantile"@);
    assert("returns.daily_by_quantile"@[0] != "turnover.mean_by_quantile"@[0]);
    assert("returns.daily_by_quantile"@ != "turnover.mean_by_quantile"@);
    assert("returns.daily_spread"@ != "turnover.mean_by_quantile"@);
    assert("returns.factor_returns"@ != "turnover.mean_by_quantile"@);
    assert("information.summary"@ != "turnover.mean_by_quantile"@);
    assert("information.ic_by_date"@ != "turnover.mean_by_quantile"@);
    assert("information.ic_rolling"@ != "turnover.mean_by_quantile"@);
    assert("information.ic_monthly"@ != "turnover.mean_by_quantile"@);
    assert("information.qq_normal"@ != "turnover.mean_by_quantile"@);
    assert("quantile.statistics"@ != "turnover.mean_rank_autocorrelation"@);
    assert("events.distribution"@ != "turnover.mean_rank_autocorrelation"@);
    assert("events.average_cumulative_returns"@ != "turnover.mean_rank_autocorrelation"@);
    assert("events.coverage"@ != "turnover.mean_rank_autocorrelation"@);
    assert("returns.summary"@ != "turnover.mean_rank_autocorrelation"@);
    assert("returns.mean_by_quantile"@ != "turnover.mean_rank_autocorrelation"@);
    assert("returns.daily_by_quantile"@ != "turnover.mean_rank_autocorrelation"@);
    assert("returns.daily_spread"@ != "turnover.mean_rank_autocorrelation"@);
    assert("returns.factor_returns"@ != "turnover.mean_rank_autocorrelation"@);
    assert("information.summary"@ != "turnover.mean_rank_autocorrelation"@);
    assert("information.ic_by_date"@ != "turnover.mean_rank_autocorrelation"@);
    assert("information.ic_rolling"@ != "turnover.mean_rank_autocorrelation"@);
    assert("information.ic_monthly"@ != "turnover.mean_rank_autocorrelation"@);
    assert("information.qq_normal"@ != "turnover.mean_rank_autocorrelation"@);
    assert("turnover.mean_by_quantile"@ != "turnover.mean_rank_autocorrelation"@);
    assert("quantile.statistics"@ != "turnover.quantile_series"@);
    assert("events.distribution"@ != "turnover.quantile_series"@);
    assert("events.average_cumulative_returns"@ != "turnover.quantile_series"@);
    assert("events.coverage"@ != "turnover.quantile_series"@);
    assert("returns.summary"@ != "turnover.quantile_series"@);
    assert("returns.mean_by_quantile"@[0] != "turnover.quantile_series"@[0]);
    assert("returns.mean_by_quantile"@ != "turnover.quantile_series"@);
    assert("returns.daily_by_quantile"@ != "turnover.quantile_series"@);
    assert("returns.daily_spread"@ != "turnover.quantile_series"@);
    assert("returns.factor_returns"@ != "turnover.quantile_series"@);
    assert("information.summary"@ != "turnover.quantile_series"@);
    assert("information.ic_by_date"@ != "turnover.quantile_series"@);
    assert("information.ic_rolling"@ != "turnover.quantile_series"@);
    assert("information.ic_monthly"@ != "turnover.quantile_series"@);
    assert("information.qq_normal"@ != "turnover.quantile_series"@);
    assert("turnover.mean_by_quantile"@ != "turnover.quantile_series"@);
    assert("turnover.mean_rank_autocorrelation"@ != "turnover.quantile_series"@);
    assert("quantile.statistics"@ != "turnover.rank_autocorrelation_series"@);
    assert("events.distribution"@ != "turnover.rank_autocorrelation_series"@);
    assert("events.average_cumulative_returns"@ != "turnover.rank_autocorrelation_series"@);
    assert("events.coverage"@ != "turnover.rank_autocorrelation_series"@);
    assert("returns.summary"@ != "turnover.rank_autocorrelation_series"@);
    assert("returns.mean_by_quantile"@ != "turnover.rank_autocorrelation_series"@);
    assert("returns.daily_by_quantile"@ != "turnover.rank_autocorrelation_series"@);
    assert("returns.daily_spread"@ != "turnover.rank_autocorrelation_series"@);
    assert("returns.factor_returns"@ != "turnover.rank_autocorrelation_series"@);
    assert("information.summary"@ != "turnover.rank_autocorrelation_series"@);
    assert("information.ic_by_date"@ != "turnover.rank_autocorrelation_series"@);
    assert("information.ic_rolling"@ != "turnover.rank_autocorrelation_series"@);
    assert("information.ic_monthly"@ != "turnover.rank_autocorrelation_series"@);
    assert("information.qq_normal"@ != "turnover.rank_autocorrelation_series"@);
    assert("turnover.mean_by_quantile"@ != "turnover.rank_autocorrelation_series"@);
    assert("turnover.mean_rank_autocorrelation"@ != "turnover.rank_autocorrelation_series"@);
    assert("turnover.quantile_series"@ != "turnover.rank_autocorrelation_series"@);
    assert("quantile.statistics"@ != "returns.group_mean_by_quantile"@);
    assert("events.distribution"@ != "returns.group_mean_by_quantile"@);
    assert("events.average_cumulative_returns"@ != "returns.group_mean_by_quantile"@);
    assert("events.coverage"@ != "returns.group_mean_by_quantile"@);
    assert("returns.summary"@ != "returns.group_mean_by_quantile"@);
    assert("returns.mean_by_quantile"@ != "returns.group_mean_by_quantile"@);
    assert("returns.daily_by_quantile"@ != "returns.group_mean_by_quantile"@);
    assert("returns.daily_spread"@ != "returns.group_mean_by_quantile"@);
    assert("returns.factor_returns"@ != "returns.group_mean_by_quantile"@);
    assert("information.summary"@ != "returns.group_mean_by_quantile"@);
    assert("information.ic_by_date"@ != "returns.group_mean_by_quantile"@);
    assert("information.ic_rolling"@ != "returns.group_mean_by_quantile"@);
    assert("information.ic_monthly"@ != "returns.group_mean_by_quantile"@);
    assert("information.qq_normal"@ != "returns.group_mean_by_quantile"@);
    assert("turnover.mean_by_quantile"@ != "returns.group_mean_by_quantile"@);
    assert("turnover.mean_rank_autocorrelation"@ != "returns.group_mean_by_quantile"@);
    assert("turnover.quantile_series"@ != "returns.group_mean_by_quantile"@);
    assert("turnover.rank_autocorrelation_series"@ != "returns.group_mean_by_quantile"@);
    assert("quantile.statistics"@ != "returns.factor_cumulative_1d"@);
    assert("events.distribution"@ != "returns.factor_cumulative_1d"@);
    assert("events.average_cumulative_returns"@ != "returns.factor_cumulative_1d"@);
    assert("events.coverage"@ != "returns.factor_cumulative_1d"@);
    assert("returns.summary"@ != "returns.factor_cumulative_1d"@);
    assert("returns.mean_by_quantile"@ != "returns.factor_cumulative_1d"@);
    assert("returns.daily_by_quantile"@ != "returns.factor_cumulative_1d"@);
    assert("returns.daily_spread"@ != "returns.factor_cumulative_1d"@);
    assert("returns.factor_returns"@ != "returns.factor_cumulative_1d"@);
    assert("information.summary"@ != "returns.factor_cumulative_1d"@);
    assert("information.ic_by_date"@ != "returns.factor_cumulative_1d"@);
    assert("information.ic_rolling"@ != "returns.factor_cumulative_1d"@);
    assert("information.ic_monthly"@ != "returns.factor_cumulative_1d"@);
    assert("information.qq_normal"@ != "returns.factor_cumulative_1d"@);
    assert("turnover.mean_by_quantile"@ != "returns.factor_cumulative_1d"@);
    assert("turnover.mean_rank_autocorrelation"@ != "returns.factor_cumulative_1d"@);
    assert("turnover.quantile_series"@ != "returns.factor_cumulative_1d"@);
    assert("turnover.rank_autocorrelation_series"@ != "returns.factor_cumulative_1d"@);
    assert("returns.group_mean_by_quantile"@ != "returns.factor_cumulative_1d"@);
    assert("quantile.statistics"@ != "returns.quantile_cumulative_1d"@);
    assert("events.distribution"@ != "returns.quantile_cumulative_1d"@);
    assert("events.average_cumulative_returns"@ != "returns.quantile_cumulative_1d"@);
    assert("events.coverage"@ != "returns.quantile_cumulative_1d"@);
    assert("returns.summary"@ != "returns.quantile_cumulative_1d"@);
    assert("returns.mean_by_quantile"@ != "returns.quantile_cumulative_1d"@);
    assert("returns.daily_by_quantile"@ != "returns.quantile_cumulative_1d"@);
    assert("returns.daily_spread"@ != "returns.quantile_cumulative_1d"@);
    assert("returns.factor_returns"@ != "returns.quantile_cumulative_1d"@);
    assert("information.summary"@ != "returns.quantile_cumulative_1d"@);
    assert("information.ic_by_date"@ != "returns.quantile_cumulative_1d"@);
    assert("information.ic_rolling"@ != "returns.quantile_cumulative_1d"@);
    assert("information.ic_monthly"@ != "returns.quantile_cumulative_1d"@);
    assert("information.qq_normal"@ != "returns.quantile_cumulative_1d"@);
    assert("turnover.mean_by_quantile"@ != "returns.quantile_cumulative_1d"@);
    assert("turnover.mean_rank_autocorrelation"@ != "returns.quantile_cumulative_1d"@);
    assert("turnover.quantile_series"@ != "returns.quantile_cumulative_1d"@);
    assert("turnover.rank_autocorrelation_series"@ != "returns.quantile_cumulative_1d"@);
    assert("returns.group_mean_by_quantile"@[8] != "returns.quantile_cumulative_1d"@[8]);
    assert("returns.group_mean_by_quantile"@ != "returns.quantile_cumulative_1d"@);
    assert("returns.factor_cumulative_1d"@ != "returns.quantile_cumulative_1d"@);
    assert("quantile.statistics"@ != "information.ic_by_group"@);
    assert("events.distribution"@ != "information.ic_by_group"@);
    assert("events.average_cumulative_returns"@ != "information.ic_by_group"@);
    assert("events.coverage"@ != "information.ic_by_group"@);
    assert("returns.summary"@ != "information.ic_by_group"@);
    assert("returns.mean_by_quantile"@ != "information.ic_by_group"@);
    assert("returns.daily_by_quantile"@ != "information.ic_by_group"@);
    assert("returns.daily_spread"@ != "information.ic_by_group"@);
    assert("returns.factor_returns"@ != "information.ic_by_group"@);
    assert("information.summary"@ != "information.ic_by_group"@);
    assert("information.ic_by_date"@ != "information.ic_by_group"@);
    assert("information.ic_rolling"@ != "information.ic_by_group"@);
    assert("information.ic_monthly"@ != "information.ic_by_group"@);
    assert("information.qq_normal"@ != "information.ic_by_group"@);
    assert("turnover.mean_by_quantile"@ != "information.ic_by_group"@);
    assert("turnover.mean_rank_autocorrelation"@ != "information.ic_by_group"@);
    assert("turnover.quantile_series"@ != "information.ic_by_group"@);
    assert("turnover.rank_autocorrelation_series"@ != "information.ic_by_group"@);
    assert("returns.group_mean_by_quantile"@ != "information.ic_by_group"@);
    assert("returns.factor_cumulative_1d"@ != "information.ic_by_group"@);
    assert("returns.quantile_cumulative_1d"@ != "information.ic_by_group"@);
}

pub open spec fn ranks_increasing(s: Seq<ReportTable>) -> bool {
    forall|i: int, j: int|
        0 <= i < j < s.len() ==> id_rank(#[trigger] s[i].spec_id()) < id_rank(#[trigger] s[j].spec_id())
}

pub open spec fn ranks_within(s: Seq<ReportTable>, lo: int, hi: int) -> bool {
    forall|i: int| 0 <= i < s.len() ==> lo <= #[trigger] id_rank(s[i].spec_id()) < hi
}

proof fn lemma_join(a: Seq<ReportTable>, b: Seq<ReportTable>, lo: int, mid: int, hi: int)
    requires
        lo <= mid <= hi,
        ranks_increasing(a),
        ranks_within(a, lo, mid),
        ranks_increasing(b),
        ranks_within(b, mid, hi),
    ensures
        ranks_increasing(a + b),
        ranks_within(a + b, lo, hi),
{
    let c = a + b;
    assert forall|i: int, j: int| 0 <= i < j < c.len() implies id_rank(#[trigger] c[i].spec_id())
        < id_rank(#[trigger] c[j].spec_id()) by {
        if j < a.len() {
            assert(c[i] == a[i] && c[j] == a[j]);
        } else if i >= a.len() {
            assert(c[i] == b[i - a.len()] && c[j] == b[j - a.len()]);
        } else {
            assert(c[i] == a[i] && c[j] == b[j - a.len()]);
            assert(id_rank(a[i].spec_id()) < mid);
            assert(mid <= id_rank(b[j - a.len()].spec_id()));
        }
    }
    assert forall|i: int| 0 <= i < c.len() implies lo <= #[trigger] id_rank(c[i].spec_id()) < hi by {
        if i < a.len() {
            assert(c[i] == a[i]);
        } else {
            assert(c[i] == b[i - a.len()]);
        }
    }
}

proof fn lemma_single(t: ReportTable, lo: int, hi: int)
    requires
        lo <= id_rank(t.spec_id()) < hi,
    ensures
        ranks_increasing(seq![t]),
        ranks_within(seq![t], lo, hi),
{
    assert(seq![t][0] == t);
}

proof fn lemma_optional(t: Option<ReportTable>, lo: int, hi: int)
    requires
        t matches Some(x) ==> lo <= id_rank(x.spec_id()) < hi,
    ensures
        ranks_increasing(opt_table(t)),
        ranks_within(opt_table(t), lo, hi),
{
    match t {
        Some(x) => lemma_single(x, lo, hi),
        None => {},
    }
}

proof fn lemma_returns_ranks(d: ReturnsReportData)
    requires
        returns_ids_ok(d),
    ensures
        ranks_increasing(returns_required(d)),
        ranks_within(returns_required(d), 4, 9),
        ranks_increasing(returns_optional(d)),
        ranks_within(returns_optional(d), 18, 21),
{
    lemma_id_ranks();
    lemma_single(d.summary, 4, 5);
    lemma_single(d.mean_by_quantile, 5, 6);
    lemma_single(d.daily_by_quantile, 6, 7);
    lemma_single(d.daily_spread, 7, 8);
    lemma_single(d.factor_returns, 8, 9);
    lemma_join(seq![d.summary], seq![d.mean_by_quantile], 4, 5, 6);
    lemma_join(seq![d.summary] + seq![d.mean_by_quantile], seq![d.daily_by_quantile], 4, 6, 7);
    lemma_join(
        seq![d.summary] + seq![d.mean_by_quantile] + seq![d.daily_by_quantile],
        seq![d.daily_spread],
        4,
        7,
        8,
    );
    lemma_join(
        seq![d.summary] + seq![d.mean_by_quantile] + seq![d.daily_by_quantile] + seq![d.daily_spread],
        seq![d.factor_returns],
        4,
        8,
        9,
    );
    assert(returns_required(d) =~= seq![d.summary] + seq![d.mean_by_quantile] + seq![
        d.daily_by_quantile,
    ] + seq![d.daily_spread] + seq![d.factor_returns]);
    lemma_optional(d.group_mean_by_quantile, 18, 19);
    lemma_optional(d.factor_cumulative_1d, 19, 20);
    lemma_optional(d.quantile_cumulative_1d, 20, 21);
    lemma_join(opt_table(d.group_mean_by_quantile), opt_table(d.factor_cumulative_1d), 18, 19, 20);
    lemma_join(
        opt_table(d.group_mean_by_quantile) + opt_table(d.factor_cumulative_1d),
        opt_table(d.quantile_cumulative_1d),
        18,
        20,
        21,
    );
}

proof fn lemma_information_ranks(d: InformationReportData)
    requires
        information_ids_ok(d),
    ensures
        ranks_increasing(information_required(d)),
        ranks_within(information_required(d), 9, 14),
        ranks_increasing(opt_table(d.ic_by_group)),
        ranks_within(opt_table(d.ic_by_group), 21, 22),
{
    lemma_id_ranks();
    lemma_single(d.summary, 9, 10);
    lemma_single(d.ic_by_date, 10, 11);
    lemma_single(d.ic_rolling, 11, 12);
    lemma_single(d.ic_monthly, 12, 13);
    lemma_single(d.qq_normal, 13, 14);
    lemma_join(seq![d.summary], seq![d.ic_by_date], 9, 10, 11);
    lemma_join(seq![d.summary] + seq![d.ic_by_date], seq![d.ic_rolling], 9, 11, 12);
    lemma_join(
        seq![d.summary] + seq![d.ic_by_date] + seq![d.ic_rolling],
        seq![d.ic_monthly],
        9,
        12,
        13,
    );
    lemma_join(
        seq![d.summary] + seq![d.ic_by_date] + seq![d.ic_rolling] + seq![d.ic_monthly],
        seq![d.qq_normal],
        9,
        13,
        14,
    );
    assert(information_required(d) =~= seq![d.summary] + seq![d.ic_by_date] + seq![d.ic_rolling]
        + seq![d.ic_monthly] + seq![d.qq_normal]);
    lemma_optional(d.ic_by_group, 21, 22);
}

proof fn lemma_turnover_ranks(d: TurnoverReportData)
    requires
        turnover_ids_ok(d),
    ensures
        ranks_increasing(turnover_list(d)),
        ranks_within(turnover_list(d), 14, 18),
{
    lemma_id_ranks();
    lemma_single(d.mean_by_quantile, 14, 15);
    lemma_single(d.mean_rank_autocorrelation, 15, 16);
    lemma_single(d.quantile_series, 16, 17);
    lemma_single(d.rank_autocorrelation_series, 17, 18);
    lemma_join(seq![d.mean_by_quantile], seq![d.mean_rank_autocorrelation], 14, 15, 16);
    lemma_join(
        seq![d.mean_by_quantile] + seq![d.mean_rank_autocorrelation],
        seq![d.quantile_series],
        14,
        16,
        17,
    );
    lemma_join(
        seq![d.mean_by_quantile] + seq![d.mean_rank_autocorrelation] + seq![d.quantile_series],
        seq![d.rank_autocorrelation_series],
        14,
        17,
        18,
    );
    assert(turnover_list(d) =~= seq![d.mean_by_quantile] + seq![d.mean_rank_autocorrelation]
        + seq![d.quantile_series] + seq![d.rank_autocorrelation_series]);
}

proof fn lemma_event_returns_ranks(d: EventReturnsReportData)
    requires
        event_returns_ids_ok(d),
    ensures
        ranks_increasing(event_returns_list(d)),
        ranks_within(event_returns_list(d), 2, 4),
{
    lemma_id_ranks();
    lemma_single(d.average_cumulative_returns, 2, 3);
    lemma_single(d.coverage, 3, 4);
    lemma_join(seq![d.average_cumulative_returns], seq![d.coverage], 2, 3, 4);
    assert(event_returns_list(d) =~= seq![d.average_cumulative_returns] + seq![d.coverage]);
}

proof fn lemma_summary_ranks(d: SummaryReportData)
    requires
        summary_ids_ok(d),
    ensures
        ranks_increasing(summary_list(d)),
{
    lemma_id_ranks();
    lemma_single(d.quantile_statistics, 0, 1);
    lemma_single(d.returns_summary, 4, 5);
    lemma_single(d.returns_mean_by_quantile, 5, 6);
    lemma_single(d.information_summary, 9, 10);
    lemma_single(d.turnover_mean_by_quantile, 14, 15);
    lemma_single(d.turnover_mean_rank_autocorrelation, 15, 16);
    let a = seq![d.quantile_statistics];
    let b = a + seq![d.returns_summary];
    let c = b + seq![d.returns_mean_by_quantile];
    let e = c + seq![d.information_summary];
    let f = e + seq![d.turnover_mean_by_quantile];
    let g = f + seq![d.turnover_mean_rank_autocorrelation];
    lemma_join(a, seq![d.returns_summary], 0, 4, 5);
    lemma_join(b, seq![d.returns_mean_by_quantile], 0, 5, 6);
    lemma_join(c, seq![d.information_summary], 0, 9, 10);
    lemma_join(e, seq![d.turnover_mean_by_quantile], 0, 14, 15);
    lemma_join(f, seq![d.turnover_mean_rank_autocorrelation], 0, 15, 16);
    assert(summary_list(d) =~= g);
}

proof fn lemma_event_study_ranks(d: EventStudyReportData)
    requires
        event_study_ids_ok(d),
    ensures
        ranks_increasing(event_study_list(d)),
{
    lemma_id_ranks();
    lemma_single(d.quantile_statistics, 0, 1);
    lemma_single(d.distribution, 1, 2);
    lemma_single(d.mean_by_quantile, 5, 6);
    lemma_single(d.daily_by_quantile, 6, 7);
    let nested = match d.event_returns {
        Some(e) => event_returns_list(e),
        None => Seq::<ReportTable>::empty(),
    };
    match d.event_returns {
        Some(e) => lemma_event_returns_ranks(e),
        None => {},
    }
    assert(ranks_increasing(nested) && ranks_within(nested, 2, 4));
    let a = seq![d.quantile_statistics];
    let b = a + seq![d.distribution];
    let c = b + nested;
    let e = c + seq![d.mean_by_quantile];
    let f = e + seq![d.daily_by_quantile];
    lemma_join(a, seq![d.distribution], 0, 1, 2);
    lemma_join(b, nested, 0, 2, 4);
    lemma_join(c, seq![d.mean_by_quantile], 0, 5, 6);
    lemma_join(e, seq![d.daily_by_quantile], 0, 6, 7);
    assert(event_study_list(d) =~= f);
}

proof fn lemma_full_ranks(d: FullReportData)
    requires
        d.quantile_statistics.spec_id() == "quantile.statistics"@,
        returns_ids_ok(d.returns),
        information_ids_ok(d.information),
        turnover_ids_ok(d.turnover),
    ensures
        ranks_increasing(full_list(d)),
{
    lemma_id_ranks();
    lemma_single(d.quantile_statistics, 0, 1);
    lemma_returns_ranks(d.returns);
    lemma_information_ranks(d.information);
    lemma_turnover_ranks(d.turnover);
    let a = seq![d.quantile_statistics];
    let b = a + returns_required(d.returns);
    let c = b + information_required(d.information);
    let e = c + turnover_list(d.turnover);
    let f = e + returns_optional(d.returns);
    let g = f + opt_table(d.information.ic_by_group);
    lemma_join(a, returns_required(d.returns), 0, 4, 9);
    lemma_join(b, information_required(d.information), 0, 9, 14);
    lemma_join(c, turnover_list(d.turnover), 0, 14, 18);
    lemma_join(e, returns_optional(d.returns), 0, 18, 21);
    lemma_join(f, opt_table(d.information.ic_by_group), 0, 21, 22);
    assert(full_list(d) =~= g);
}

/// The tables a tear sheet holds, when each carries the id its place calls for, all have
/// different ids: what the library builds passes the reader's check for repeated ids.
pub proof fn lemma_expected_ids_distinct(t: TearSheetData)
    requires
        sheet_ids_ok(t),
    ensures
        ids_distinct(sheet_tables(t)),
{
    match t {
        TearSheetData::Summary(r) => lemma_summary_ranks(r.data),
        TearSheetData::Returns(r) => {
            lemma_returns_ranks(r.data);
            lemma_join(returns_required(r.data), returns_optional(r.data), 4, 9, 21);
        },
        TearSheetData::Information(r) => {
            lemma_information_ranks(r.data);
            lemma_join(information_required(r.data), opt_table(r.data.ic_by_group), 9, 14, 22);
        },
        TearSheetData::Turnover(r) => lemma_turnover_ranks(r.data),
        TearSheetData::Full(r) => lemma_full_ranks(r.data),
        TearSheetData::EventReturns(r) => lemma_event_returns_ranks(r.data),
        TearSheetData::EventStudy(r) => lemma_event_study_ranks(r.data),
    }
    let s = sheet_tables(t);
    assert(ranks_increasing(s));
    assert forall|i: int, j: int| 0 <= i < j < s.len() implies #[trigger] s[i].spec_id()
        != #[trigger] s[j].spec_id() by {
        assert(id_rank(s[i].spec_id()) < id_rank(s[j].spec_id()));
    }
}

} // verus!
