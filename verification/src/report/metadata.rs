use vstd::prelude::*;

use crate::calendar::period_label;
use crate::error::FerricAlphaError;
use crate::performance::frame::{
    column_error, covered, discover_forward_periods, forward_column_count, produced_by, ColumnInfo,
    ForwardPeriod,
};
use crate::report::table::ReportTimeUnit;
use crate::sorted::{insert_sorted_text, insert_sorted_u32, texts, texts_sorted, u32s_sorted};
use crate::text::str_eq;

verus! {

/// The version of the serialized tear-sheet contract.
pub const CONTRACT_VERSION: &'static str = "ferric-alpha.tear-sheet/v1";

/// Which tear sheet a report holds.
#[derive(Debug, Clone, Copy, PartialEq, Eq, Structural)]
pub enum ReportKind {
    Summary,
    Returns,
    Information,
    Turnover,
    Full,
    EventReturns,
    EventStudy,
}

/// What a report says about the factor data it was built from.
#[derive(Debug, Clone, PartialEq)]
pub struct ReportMetadata {
    contract_version: String,
    report_kind: ReportKind,
    source_rows: u64,
    date_start: Option<i64>,
    date_end: Option<i64>,
    date_time_unit: ReportTimeUnit,
    date_timezone: Option<String>,
    periods: Vec<String>,
    quantiles: Vec<u32>,
    groups: Vec<String>,
}

/// The keys of one factor row that the metadata summarizes.
#[derive(Debug, Clone)]
pub struct FactorKey {
    pub date: i64,
    pub quantile: Option<u32>,
    pub group: Option<String>,
}

/// Some row carries this positive quantile.
pub open spec fn has_quantile(rows: Seq<FactorKey>, q: u32) -> bool {
    q > 0 && exists|i: int| 0 <= i < rows.len() && #[trigger] rows[i].quantile == Some(q)
}

/// The row's group has this text.
pub open spec fn group_is(row: FactorKey, g: Seq<char>) -> bool {
    row.group matches Some(s) && s@ == g
}

/// Some row carries a group with this text.
pub open spec fn has_group(rows: Seq<FactorKey>, g: Seq<char>) -> bool {
    exists|i: int| 0 <= i < rows.len() && #[trigger] group_is(rows[i], g)
}

/// `m` is the least date of the rows.
pub open spec fn least_date(rows: Seq<FactorKey>, m: i64) -> bool {
    (exists|i: int| 0 <= i < rows.len() && #[trigger] rows[i].date == m) && forall|i: int|
        0 <= i < rows.len() ==> m <= #[trigger] rows[i].date
}

/// `m` is the greatest date of the rows.
pub open spec fn greatest_date(rows: Seq<FactorKey>, m: i64) -> bool {
    (exists|i: int| 0 <= i < rows.len() && #[trigger] rows[i].date == m) && forall|i: int|
        0 <= i < rows.len() ==> #[trigger] rows[i].date <= m
}

impl ReportMetadata {
    pub closed spec fn spec_contract_version(self) -> Seq<char> {
        self.contract_version@
    }

    pub closed spec fn spec_report_kind(self) -> ReportKind {
        self.report_kind
    }

    pub closed spec fn spec_source_rows(self) -> u64 {
        self.source_rows
    }

    pub closed spec fn spec_date_start(self) -> Option<i64> {
        self.date_start
    }

    pub closed spec fn spec_date_end(self) -> Option<i64> {
        self.date_end
    }

    pub closed spec fn spec_date_time_unit(self) -> ReportTimeUnit {
        self.date_time_unit
    }

    pub closed spec fn spec_date_timezone(self) -> Option<String> {
        self.date_timezone
    }

    pub closed spec fn spec_periods(self) -> Seq<String> {
        self.periods@
    }

    pub closed spec fn spec_quantiles(self) -> Seq<u32> {
        self.quantiles@
    }

    pub closed spec fn spec_groups(self) -> Seq<String> {
        self.groups@
    }

    /// Metadata with every field given, as a stored report holds it.
    pub fn from_parts(
        contract_version: String,
        report_kind: ReportKind,
        source_rows: u64,
        date_start: Option<i64>,
        date_end: Option<i64>,
        date_time_unit: ReportTimeUnit,
        date_timezone: Option<String>,
        periods: Vec<String>,
        quantiles: Vec<u32>,
        groups: Vec<String>,
    ) -> (r: ReportMetadata)
        ensures
            r.spec_contract_version() == contract_version@,
            r.spec_report_kind() == report_kind,
            r.spec_source_rows() == source_rows,
            r.spec_date_start() == date_start,
            r.spec_date_end() == date_end,
            r.spec_date_time_unit() == date_time_unit,
            r.spec_date_timezone() == date_timezone,
            r.spec_periods() == periods@,
            r.spec_quantiles() == quantiles@,
            r.spec_groups() == groups@,
    {
        ReportMetadata {
            contract_version,
            report_kind,
            source_rows,
            date_start,
            date_end,
            date_time_unit,
            date_timezone,
            periods,
            quantiles,
            groups,
        }
    }

    /// Summarizes factor rows: how many there are, their first and last dates, and the
    /// distinct positive quantiles and groups they carry, each in increasing order.
    #[verifier::spinoff_prover]
    pub fn from_rows(
        rows: &[FactorKey],
        report_kind: ReportKind,
        date_time_unit: ReportTimeUnit,
        date_timezone: Option<String>,
        periods: Vec<String>,
    ) -> (r: ReportMetadata)
        ensures
            r.spec_contract_version() == CONTRACT_VERSION@,
            r.spec_report_kind() == report_kind,
            r.spec_source_rows() == rows@.len(),
            rows@.len() == 0 ==> r.spec_date_start() is None && r.spec_date_end() is None,
            rows@.len() > 0 ==> (r.spec_date_start() matches Some(m) && least_date(rows@, m)),
            rows@.len() > 0 ==> (r.spec_date_end() matches Some(m) && greatest_date(rows@, m)),
            r.spec_date_time_unit() == date_time_unit,
            r.spec_date_timezone() == date_timezone,
            r.spec_periods() == periods@,
            u32s_sorted(r.spec_quantiles()),
            forall|q: u32| r.spec_quantiles().contains(q) <==> has_quantile(rows@, q),
            texts_sorted(texts(r.spec_groups())),
            forall|g: Seq<char>| texts(r.spec_groups()).contains(g) <==> has_group(rows@, g),
    {
        let n: usize = rows.len();
        let mut date_start: Option<i64> = None;
        let mut date_end: Option<i64> = None;
        let mut quantiles: Vec<u32> = Vec::new();
        let mut groups: Vec<String> = Vec::new();
        let mut i: usize = 0;
        while i < n
            invariant
                n == rows@.len(),
                i <= n,
                i == 0 ==> date_start is None && date_end is None,
                i > 0 ==> (date_start matches Some(m) && least_date(rows@.subrange(0, i as int), m)),
                i > 0 ==> (date_end matches Some(m) && greatest_date(rows@.subrange(0, i as int), m)),
                u32s_sorted(quantiles@),
                forall|q: u32| quantiles@.contains(q) <==> has_quantile(rows@.subrange(0, i as int), q),
                texts_sorted(texts(groups@)),
                forall|g: Seq<char>|
                    texts(groups@).contains(g) <==> has_group(rows@.subrange(0, i as int), g),
            decreases n - i,
        {
            let ghost pre = rows@.subrange(0, i as int);
            let ghost post = rows@.subrange(0, i + 1);
            let row = &rows[i];
            proof {
                assert forall|k: int| 0 <= k < i implies #[trigger] post[k] == pre[k] by {}
                assert(post[i as int] == *row);
            }
            let date: i64 = row.date;
            date_start = match date_start {
                Some(m) => if date < m {
                    Some(date)
                } else {
                    Some(m)
                },
                None => Some(date),
            };
            date_end = match date_end {
                Some(m) => if date > m {
                    Some(date)
                } else {
                    Some(m)
                },
                None => Some(date),
            };
            proof {
                let ms = date_start->0;
                let me = date_end->0;
                if i > 0 {
                    assert forall|k: int| 0 <= k < post.len() implies ms <= #[trigger] post[k].date by {
                        if k < i {
                            assert(pre[k] == post[k]);
                        }
                    }
                    assert forall|k: int| 0 <= k < post.len() implies #[trigger] post[k].date <= me by {
                        if k < i {
                            assert(pre[k] == post[k]);
                        }
                    }
                    if ms != date {
                        let k = choose|k: int| 0 <= k < pre.len() && #[trigger] pre[k].date == ms;
                        assert(post[k].date == ms);
                    } else {
                        assert(post[i as int].date == ms);
                    }
                    if me != date {
                        let k = choose|k: int| 0 <= k < pre.len() && #[trigger] pre[k].date == me;
                        assert(post[k].date == me);
                    } else {
                        assert(post[i as int].date == me);
                    }
                } else {
                    assert(post[0].date == date);
                }
            }
            match row.quantile {
                Some(q) => {
                    if q > 0 {
                        insert_sorted_u32(&mut quantiles, q);
                    }
                },
                None => {},
            }
            proof {
                assert forall|q: u32| quantiles@.contains(q) <==> has_quantile(post, q) by {
                    if has_quantile(post, q) {
                        let k = choose|k: int| 0 <= k < post.len() && #[trigger] post[k].quantile == Some(q);
                        if k < i {
                            assert(pre[k].quantile == Some(q));
                        }
                    }
                    if has_quantile(pre, q) {
                        let k = choose|k: int| 0 <= k < pre.len() && #[trigger] pre[k].quantile == Some(q);
                        assert(post[k].quantile == Some(q));
                    }
                }
            }
            let ghost old_groups = texts(groups@);
            match &row.group {
                Some(g) => {
                    let copy = g.clone();
                    assert(copy@ == g@);
                    insert_sorted_text(&mut groups, copy);
                },
                None => {},
            }
            proof {
                assert forall|t: Seq<char>| texts(groups@).contains(t) <==> (old_groups.contains(t)
                    || group_is(*row, t)) by {}
                assert(post[i as int] == *row);
                assert forall|g: Seq<char>| texts(groups@).contains(g) <==> has_group(post, g) by {
                    if has_group(post, g) {
                        let k = choose|k: int| 0 <= k < post.len() && #[trigger] group_is(post[k], g);
                        if k < i {
                            assert(pre[k].group == post[k].group);
                            assert(group_is(pre[k], g));
                        }
                    }
                    if has_group(pre, g) {
                        let k = choose|k: int| 0 <= k < pre.len() && #[trigger] group_is(pre[k], g);
                        assert(post[k].group == pre[k].group);
                    }
                }
            }
            i = i + 1;
        }
        proof {
            assert(rows@.subrange(0, n as int) =~= rows@);
        }
        ReportMetadata {
            contract_version: String::from_str(CONTRACT_VERSION),
            report_kind,
            source_rows: n as u64,
            date_start,
            date_end,
            date_time_unit,
            date_timezone,
            periods,
            quantiles,
            groups,
        }
    }

    pub fn contract_version(&self) -> (r: &str)
        ensures
            r@ == self.spec_contract_version(),
    {
        self.contract_version.as_str()
    }

    pub fn report_kind(&self) -> (r: ReportKind)
        ensures
            r == self.spec_report_kind(),
    {
        self.report_kind
    }

    pub fn source_rows(&self) -> (r: u64)
        ensures
            r == self.spec_source_rows(),
    {
        self.source_rows
    }

    pub fn date_start(&self) -> (r: Option<i64>)
        ensures
            r == self.spec_date_start(),
    {
        self.date_start
    }

    pub fn date_end(&self) -> (r: Option<i64>)
        ensures
            r == self.spec_date_end(),
    {
        self.date_end
    }

    pub fn date_time_unit(&self) -> (r: ReportTimeUnit)
        ensures
            r == self.spec_date_time_unit(),
    {
        self.date_time_unit
    }

    pub fn date_timezone(&self) -> (r: Option<&str>)
        ensures
            match self.spec_date_timezone() {
                Some(t) => r matches Some(z) && z@ == t@,
                None => r is None,
            },
    {
        match &self.date_timezone {
            Some(t) => Some(t.as_str()),
            None => None,
        }
    }

    pub fn periods(&self) -> (r: &[String])
        ensures
            r@ == self.spec_periods(),
    {
        self.periods.as_slice()
    }

    pub fn quantiles(&self) -> (r: &[u32])
        ensures
            r@ == self.spec_quantiles(),
    {
        self.quantiles.as_slice()
    }

    pub fn groups(&self) -> (r: &[String])
        ensures
            r@ == self.spec_groups(),
    {
        self.groups.as_slice()
    }
}

/// Checks that a stored report's contract version is the current one.
pub fn check_contract_version(version: &str) -> (r: Result<(), FerricAlphaError>)
    ensures
        version@ != CONTRACT_VERSION@ ==> (r matches Err(
            FerricAlphaError::ReportVersion { expected, actual },
        ) && expected == CONTRACT_VERSION && actual@ == version@),
        version@ == CONTRACT_VERSION@ ==> r is Ok,
{
    if !str_eq(version, CONTRACT_VERSION) {
        return Err(
            FerricAlphaError::ReportVersion {
                expected: CONTRACT_VERSION,
                actual: String::from_str(version),
            },
        );
    }
    Ok(())
}

/// Checks that stored metadata carries the current contract version and the expected kind.
pub fn validate_metadata(metadata: &ReportMetadata, expected_kind: ReportKind) -> (r: Result<
    (),
    FerricAlphaError,
>)
    ensures
        metadata.spec_contract_version() != CONTRACT_VERSION@ ==> (r matches Err(
            FerricAlphaError::ReportVersion { expected, actual },
        ) && expected == CONTRACT_VERSION && actual@ == metadata.spec_contract_version()),
        metadata.spec_contract_version() == CONTRACT_VERSION@ && metadata.spec_report_kind()
            != expected_kind ==> r == Err::<(), FerricAlphaError>(
            FerricAlphaError::InvalidReport {
                operation: "TearSheetData::from_json",
                reason: "report kind/body mismatch",
            },
        ),
        metadata.spec_contract_version() == CONTRACT_VERSION@ && metadata.spec_report_kind()
            == expected_kind ==> r is Ok,
{
    check_contract_version(metadata.contract_version())?;
    if metadata.report_kind != expected_kind {
        return Err(
            FerricAlphaError::InvalidReport {
                operation: "TearSheetData::from_json",
                reason: "report kind/body mismatch",
            },
        );
    }
    Ok(())
}


/// The first date of the rows comes no later than the last.
pub proof fn lemma_date_span(rows: Seq<FactorKey>, start: i64, end: i64)
    requires
        least_date(rows, start),
        greatest_date(rows, end),
    ensures
        start <= end,
{
    let k = choose|k: int| 0 <= k < rows.len() && #[trigger] rows[k].date == start;
    assert(rows[k].date <= end);
}

/// Some column of the frame is a forward-return column naming `count` sessions.
pub open spec fn names_count(columns: Seq<ColumnInfo>, count: u32) -> bool {
    exists|k: int|
        0 <= k < columns.len() && #[trigger] forward_column_count(columns[k].name@) == Some(
            Ok::<u32, FerricAlphaError>(count),
        )
}

/// `labels` are the labels `<n>D` of the counts `n` that the forward-return columns name,
/// each once, ordered by `n`.
pub open spec fn forward_labels(columns: Seq<ColumnInfo>, labels: Seq<Seq<char>>) -> bool {
    exists|counts: Seq<u32>|
        {
            &&& #[trigger] counts.len() == labels.len()
            &&& forall|a: int, b: int| 0 <= a < b < counts.len() ==> counts[a] < counts[b]
            &&& forall|a: int|
                0 <= a < counts.len() ==> #[trigger] labels[a] == period_label(counts[a] as nat)
            &&& forall|c: u32| counts.contains(c) <==> names_count(columns, c)
        }
}

/// The metadata of factor data given by its columns and rows: the periods are the labels
/// of the frame's forward-return columns by increasing session count, and the rest is
/// summarized from the rows as `from_rows` does. Fails as discovering the forward-return
/// periods fails.
pub fn metadata_from_columns(
    columns: &[ColumnInfo],
    rows: &[FactorKey],
    report_kind: ReportKind,
    date_time_unit: ReportTimeUnit,
    date_timezone: Option<String>,
) -> (r: Result<ReportMetadata, FerricAlphaError>)
    ensures
        r is Ok <==> forall|k: int|
            0 <= k < columns@.len() ==> #[trigger] column_error(columns@, k) is None,
        r matches Err(e) ==> exists|k: int|
            0 <= k < columns@.len() && (forall|j: int|
                0 <= j < k ==> #[trigger] column_error(columns@, j) is None) && column_error(
                columns@,
                k,
            ) == Some(e),
        r matches Ok(m) ==> {
            &&& forward_labels(columns@, texts(m.spec_periods()))
            &&& m.spec_contract_version() == CONTRACT_VERSION@
            &&& m.spec_report_kind() == report_kind
            &&& m.spec_source_rows() == rows@.len()
            &&& rows@.len() == 0 ==> m.spec_date_start() is None && m.spec_date_end() is None
            &&& rows@.len() > 0 ==> (m.spec_date_start() matches Some(d) && least_date(rows@, d))
            &&& rows@.len() > 0 ==> (m.spec_date_end() matches Some(d) && greatest_date(rows@, d))
            &&& m.spec_date_time_unit() == date_time_unit
            &&& m.spec_date_timezone() == date_timezone
            &&& u32s_sorted(m.spec_quantiles())
            &&& forall|q: u32| m.spec_quantiles().contains(q) <==> has_quantile(rows@, q)
            &&& texts_sorted(texts(m.spec_groups()))
            &&& forall|g: Seq<char>| texts(m.spec_groups()).contains(g) <==> has_group(rows@, g)
        },
{
    let periods = discover_forward_periods(columns)?;
    let mut labels: Vec<String> = Vec::new();
    let mut i: usize = 0;
    while i < periods.len()
        invariant
            i <= periods@.len(),
            labels@.len() == i,
            forall|a: int| 0 <= a < i ==> #[trigger] labels@[a]@ == periods@[a].label@,
        decreases periods@.len() - i,
    {
        labels.push(periods[i].label.clone());
        i = i + 1;
    }
    proof {
        let counts = periods@.map_values(|p: ForwardPeriod| p.observations);
        let ls = texts(labels@);
        assert forall|a: int| 0 <= a < counts.len() implies #[trigger] ls[a] == period_label(
            counts[a] as nat,
        ) by {
            assert(produced_by(columns@, columns@.len() as int, periods@[a]));
        }
        assert forall|c: u32| counts.contains(c) <==> names_count(columns@, c) by {
            if counts.contains(c) {
                let a = choose|a: int| 0 <= a < counts.len() && counts[a] == c;
                assert(produced_by(columns@, columns@.len() as int, periods@[a]));
                let k = choose|k: int|
                    0 <= k < columns@.len() && #[trigger] forward_column_count(columns@[k].name@)
                        == Some(Ok::<u32, FerricAlphaError>(periods@[a].observations))
                        && periods@[a].column == columns@[k].name && periods@[a].label@
                        == period_label(periods@[a].observations as nat);
                assert(names_count(columns@, c));
            }
            if names_count(columns@, c) {
                let k = choose|k: int|
                    0 <= k < columns@.len() && #[trigger] forward_column_count(columns@[k].name@)
                        == Some(Ok::<u32, FerricAlphaError>(c));
                assert(covered(columns@, k, periods@));
                let a = choose|a: int|
                    0 <= a < periods@.len() && #[trigger] periods@[a].observations == c;
                assert(counts[a] == c);
            }
        }
        assert(counts.len() == ls.len());
    }
    Ok(ReportMetadata::from_rows(rows, report_kind, date_time_unit, date_timezone, labels))
}

} // verus!
