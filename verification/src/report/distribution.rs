use vstd::prelude::*;

use crate::error::FerricAlphaError;

verus! {

/// The bins of an event-date histogram: where each starts and ends, and how many events
/// fall in it.
#[derive(Debug, Clone, PartialEq, Eq)]
pub struct DistributionBins {
    pub starts: Vec<i64>,
    pub ends: Vec<i64>,
    pub counts: Vec<u64>,
}

/// The earliest of a nonempty list of dates.
pub open spec fn seq_min(dates: Seq<i64>) -> int
    decreases dates.len(),
{
    if dates.len() <= 1 {
        dates[0] as int
    } else {
        let rest = seq_min(dates.drop_last());
        if (dates.last() as int) < rest {
            dates.last() as int
        } else {
            rest
        }
    }
}

/// The latest of a nonempty list of dates.
pub open spec fn seq_max(dates: Seq<i64>) -> int
    decreases dates.len(),
{
    if dates.len() <= 1 {
        dates[0] as int
    } else {
        let rest = seq_max(dates.drop_last());
        if (dates.last() as int) > rest {
            dates.last() as int
        } else {
            rest
        }
    }
}

/// How many bins the histogram has: one when all dates are equal, else as many as asked.
pub open spec fn bin_total(dates: Seq<i64>, requested: u32) -> nat {
    if seq_min(dates) == seq_max(dates) {
        1
    } else {
        requested as nat
    }
}

/// The `k`-th of `bins` equal steps from `start` across `span`, rounded down.
pub open spec fn edge(start: int, span: int, k: int, bins: int) -> int {
    start + (span * k) / bins
}

/// A date falls in a bin: from its start, up to its end, which only the last bin includes.
pub open spec fn in_bin(d: i64, lo: int, hi: int, last: bool) -> bool {
    lo <= d && if last {
        d <= hi
    } else {
        d < hi
    }
}

/// How many dates fall in a bin.
pub open spec fn count_in(dates: Seq<i64>, lo: int, hi: int, last: bool) -> nat
    decreases dates.len(),
{
    if dates.len() == 0 {
        0
    } else {
        count_in(dates.drop_last(), lo, hi, last) + if in_bin(dates.last(), lo, hi, last) {
            1nat
        } else {
            0nat
        }
    }
}

proof fn lemma_prefix(dates: Seq<i64>, i: int)
    requires
        0 <= i < dates.len(),
    ensures
        dates.subrange(0, i + 1).drop_last() == dates.subrange(0, i),
        dates.subrange(0, i + 1).last() == dates[i],
{
    assert(dates.subrange(0, i + 1).drop_last() =~= dates.subrange(0, i));
}

proof fn lemma_edge_bounds(span: int, k: int, bins: int)
    requires
        0 <= span,
        0 <= k <= bins,
        0 < bins,
    ensures
        0 <= (span * k) / bins <= span,
{
    assert(0 <= span * k <= span * bins) by (nonlinear_arith)
        requires
            0 <= span,
            0 <= k <= bins,
    ;
    assert((span * k) / bins <= (span * bins) / bins) by (nonlinear_arith)
        requires
            0 <= span * k <= span * bins,
            0 < bins,
    ;
    assert((span * bins) / bins == span) by (nonlinear_arith)
        requires
            0 < bins,
    ;
    assert(0 <= (span * k) / bins) by (nonlinear_arith)
        requires
            0 <= span * k,
            0 < bins,
    ;
}

/// The `k`-th edge, computed without overflow.
fn edge_at(start: i64, span: i64, k: u32, bins: u32) -> (r: i64)
    requires
        0 <= span,
        start + span <= i64::MAX,
        k <= bins,
        0 < bins,
    ensures
        r == edge(start as int, span as int, k as int, bins as int),
{
    proof {
        lemma_edge_bounds(span as int, k as int, bins as int);
    }
    assert(0 <= span as int * k as int <= 0x7fff_ffff_ffff_ffff * 0xffff_ffff) by (nonlinear_arith)
        requires
            0 <= span <= 0x7fff_ffff_ffff_ffff,
            0 <= k <= 0xffff_ffff,
    ;
    let product: i128 = span as i128 * k as i128;
    assert(product == span as int * k as int);
    let step: i128 = product / bins as i128;
    (start as i128 + step) as i64
}

/// Counts the dates that fall in a bin.
fn count_bin(dates: &[i64], lo: i64, hi: i64, last: bool) -> (r: u64)
    ensures
        r == count_in(dates@, lo as int, hi as int, last),
{
    let n: usize = dates.len();
    let mut count: u64 = 0;
    let mut i: usize = 0;
    while i < n
        invariant
            n == dates@.len(),
            i <= n,
            count == count_in(dates@.subrange(0, i as int), lo as int, hi as int, last),
            count <= i,
        decreases n - i,
    {
        proof {
            lemma_prefix(dates@, i as int);
        }
        let d: i64 = dates[i];
        let inside: bool = lo <= d && if last {
            d <= hi
        } else {
            d < hi
        };
        if inside {
            count = count + 1;
        }
        i = i + 1;
    }
    proof {
        assert(dates@.subrange(0, n as int) == dates@);
    }
    count
}

/// Spreads the event dates over a histogram: from the earliest to the latest date in
/// `requested_bins` equal steps (one bin when all dates are equal), each bin counting the
/// dates from its start up to its end, which only the last bin includes. Without dates, or
/// with a date range wider than a date can hold, there is no histogram.
pub fn event_distribution(dates: &[i64], requested_bins: u32) -> (r: Result<
    DistributionBins,
    FerricAlphaError,
>)
    ensures
        dates@.len() == 0 ==> r == Err::<DistributionBins, FerricAlphaError>(
            FerricAlphaError::InsufficientData { operation: "create_event_study_tear_sheet_data" },
        ),
        dates@.len() > 0 && seq_max(dates@) - seq_min(dates@) > i64::MAX ==> r == Err::<
            DistributionBins,
            FerricAlphaError,
        >(
            FerricAlphaError::InvalidInput {
                operation: "create_event_study_tear_sheet_data",
                reason: "date range overflow",
            },
        ),
        dates@.len() > 0 && seq_max(dates@) - seq_min(dates@) <= i64::MAX ==> r is Ok,
        r matches Ok(b) ==> {
            let lo = seq_min(dates@);
            let hi = seq_max(dates@);
            let bins = bin_total(dates@, requested_bins);
            &&& b.starts@.len() == bins
            &&& b.ends@.len() == bins
            &&& b.counts@.len() == bins
            &&& forall|k: int|
                0 <= k < bins ==> {
                    &&& #[trigger] b.starts@[k] == edge(lo, hi - lo, k, bins as int)
                    &&& b.ends@[k] == if k + 1 == bins {
                        hi
                    } else {
                        edge(lo, hi - lo, k + 1, bins as int)
                    }
                    &&& b.counts@[k] == count_in(dates@, b.starts@[k] as int, b.ends@[k] as int, k + 1 == bins)
                }
        },
{
    let n: usize = dates.len();
    if n == 0 {
        return Err(FerricAlphaError::InsufficientData { operation: "create_event_study_tear_sheet_data" });
    }
    let mut start: i64 = dates[0];
    let mut end: i64 = dates[0];
    let mut i: usize = 1;
    while i < n
        invariant
            n == dates@.len(),
            1 <= i <= n,
            start == seq_min(dates@.subrange(0, i as int)),
            end == seq_max(dates@.subrange(0, i as int)),
        decreases n - i,
    {
        proof {
            lemma_prefix(dates@, i as int);
        }
        if dates[i] < start {
            start = dates[i];
        }
        if dates[i] > end {
            end = dates[i];
        }
        i = i + 1;
    }
    proof {
        assert(dates@.subrange(0, n as int) == dates@);
        lemma_min_le_max(dates@);
    }
    let wide: i128 = end as i128 - start as i128;
    if wide > 0x7fff_ffff_ffff_ffffi128 {
        return Err(FerricAlphaError::InvalidInput {
            operation: "create_event_study_tear_sheet_data",
            reason: "date range overflow",
        });
    }
    let span: i64 = wide as i64;
    let bins: u32 = if start == end {
        1
    } else {
        requested_bins
    };
    let mut starts: Vec<i64> = Vec::new();
    let mut ends: Vec<i64> = Vec::new();
    let mut counts: Vec<u64> = Vec::new();
    let mut k: u32 = 0;
    while k < bins
        invariant
            n == dates@.len(),
            k <= bins,
            bins == bin_total(dates@, requested_bins),
            start == seq_min(dates@),
            end == seq_max(dates@),
            span == end - start,
            0 <= span,
            starts@.len() == k,
            ends@.len() == k,
            counts@.len() == k,
            forall|j: int|
                0 <= j < k ==> {
                    &&& #[trigger] starts@[j] == edge(start as int, span as int, j, bins as int)
                    &&& ends@[j] == if j + 1 == bins {
                        end as int
                    } else {
                        edge(start as int, span as int, j + 1, bins as int)
                    }
                    &&& counts@[j] == count_in(dates@, starts@[j] as int, ends@[j] as int, j + 1 == bins)
                },
        decreases bins - k,
    {
        let lo: i64 = edge_at(start, span, k, bins);
        let last: bool = k + 1 == bins;
        let hi: i64 = if last {
            end
        } else {
            edge_at(start, span, k + 1, bins)
        };
        let count: u64 = count_bin(dates, lo, hi, last);
        let ghost (old_starts, old_ends, old_counts) = (starts@, ends@, counts@);
        starts.push(lo);
        ends.push(hi);
        counts.push(count);
        proof {
            assert forall|j: int| 0 <= j < k + 1 implies {
                &&& #[trigger] starts@[j] == edge(start as int, span as int, j, bins as int)
                &&& ends@[j] == if j + 1 == bins {
                    end as int
                } else {
                    edge(start as int, span as int, j + 1, bins as int)
                }
                &&& counts@[j] == count_in(dates@, starts@[j] as int, ends@[j] as int, j + 1 == bins)
            } by {
                if j < k {
                    assert(starts@[j] == old_starts[j]);
                    assert(ends@[j] == old_ends[j]);
                    assert(counts@[j] == old_counts[j]);
                }
            }
        }
        k = k + 1;
    }
    Ok(DistributionBins { starts, ends, counts })
}

proof fn lemma_min_le_max(dates: Seq<i64>)
    requires
        dates.len() > 0,
    ensures
        seq_min(dates) <= seq_max(dates),
        i64::MIN <= seq_min(dates) <= i64::MAX,
        i64::MIN <= seq_max(dates) <= i64::MAX,
    decreases dates.len(),
{
    if dates.len() > 1 {
        lemma_min_le_max(dates.drop_last());
    }
}

/// Where bin `k` ends: the next edge, or the latest date for the last bin.
pub open spec fn bin_end(lo: int, hi: int, k: int, bins: int) -> int {
    if k + 1 == bins {
        hi
    } else {
        edge(lo, hi - lo, k + 1, bins)
    }
}

/// The counts of the first `m` bins, added up.
pub open spec fn counted(dates: Seq<i64>, lo: int, hi: int, bins: int, m: int) -> nat
    decreases m,
{
    if m <= 0 {
        0
    } else {
        counted(dates, lo, hi, bins, m - 1) + count_in(
            dates,
            edge(lo, hi - lo, m - 1, bins),
            bin_end(lo, hi, m - 1, bins),
            m == bins,
        )
    }
}

/// How many of the first `m` bins hold the date `d`.
pub open spec fn holding(d: i64, lo: int, hi: int, bins: int, m: int) -> nat
    decreases m,
{
    if m <= 0 {
        0
    } else {
        holding(d, lo, hi, bins, m - 1) + if in_bin(
            d,
            edge(lo, hi - lo, m - 1, bins),
            bin_end(lo, hi, m - 1, bins),
            m == bins,
        ) {
            1nat
        } else {
            0nat
        }
    }
}

proof fn lemma_edges_ordered(lo: int, span: int, k: int, bins: int)
    requires
        0 <= span,
        0 <= k < bins,
    ensures
        lo <= edge(lo, span, k, bins) <= edge(lo, span, k + 1, bins),
        edge(lo, span, 0, bins) == lo,
{
    lemma_edge_bounds(span, k, bins);
    assert(span * k <= span * (k + 1)) by (nonlinear_arith)
        requires
            0 <= span,
            0 <= k,
    ;
    vstd::arithmetic::div_mod::lemma_div_is_ordered(span * k, span * (k + 1), bins);
    assert(span * 0 == 0);
}

/// Of the bins before the last, the first `m` hold `d` once when it lies before the `m`-th
/// edge, and not at all otherwise.
proof fn lemma_holding_prefix(d: i64, lo: int, hi: int, bins: int, m: int)
    requires
        lo <= hi,
        0 <= m < bins,
        lo <= d,
    ensures
        holding(d, lo, hi, bins, m) == if (d as int) < edge(lo, hi - lo, m, bins) {
            1nat
        } else {
            0nat
        },
    decreases m,
{
    if m == 0 {
        lemma_edges_ordered(lo, hi - lo, 0, bins);
    } else {
        lemma_holding_prefix(d, lo, hi, bins, m - 1);
        lemma_edges_ordered(lo, hi - lo, m - 1, bins);
    }
}

proof fn lemma_holding_all(d: i64, lo: int, hi: int, bins: int)
    requires
        lo <= d <= hi,
        0 < bins,
    ensures
        holding(d, lo, hi, bins, bins) == 1,
{
    lemma_holding_prefix(d, lo, hi, bins, bins - 1);
    lemma_edges_ordered(lo, hi - lo, bins - 1, bins);
    lemma_edge_bounds(hi - lo, bins - 1, bins);
}

proof fn lemma_counted_step(dates: Seq<i64>, lo: int, hi: int, bins: int, m: int)
    requires
        dates.len() > 0,
    ensures
        counted(dates, lo, hi, bins, m) == counted(dates.drop_last(), lo, hi, bins, m) + holding(
            dates.last(),
            lo,
            hi,
            bins,
            m,
        ),
    decreases m,
{
    if m > 0 {
        lemma_counted_step(dates, lo, hi, bins, m - 1);
    }
}

proof fn lemma_counted_within(dates: Seq<i64>, lo: int, hi: int, bins: int)
    requires
        lo <= hi,
        0 < bins,
        forall|i: int| 0 <= i < dates.len() ==> lo <= #[trigger] dates[i] <= hi,
    ensures
        counted(dates, lo, hi, bins, bins) == dates.len(),
    decreases dates.len(),
{
    if dates.len() == 0 {
        lemma_counted_empty(dates, lo, hi, bins, bins);
    } else {
        let rest = dates.drop_last();
        assert forall|i: int| 0 <= i < rest.len() implies lo <= #[trigger] rest[i] <= hi by {
            assert(rest[i] == dates[i]);
        }
        lemma_counted_within(rest, lo, hi, bins);
        lemma_counted_step(dates, lo, hi, bins, bins);
        assert(lo <= dates[dates.len() - 1] <= hi);
        lemma_holding_all(dates.last(), lo, hi, bins);
    }
}

proof fn lemma_counted_empty(dates: Seq<i64>, lo: int, hi: int, bins: int, m: int)
    requires
        dates.len() == 0,
    ensures
        counted(dates, lo, hi, bins, m) == 0,
    decreases m,
{
    if m > 0 {
        lemma_counted_empty(dates, lo, hi, bins, m - 1);
    }
}

proof fn lemma_dates_within(dates: Seq<i64>)
    requires
        dates.len() > 0,
    ensures
        forall|i: int| 0 <= i < dates.len() ==> seq_min(dates) <= #[trigger] dates[i] <= seq_max(dates),
    decreases dates.len(),
{
    if dates.len() > 1 {
        let rest = dates.drop_last();
        lemma_dates_within(rest);
        assert forall|i: int| 0 <= i < dates.len() implies seq_min(dates) <= #[trigger] dates[i]
            <= seq_max(dates) by {
            if i < dates.len() - 1 {
                assert(dates[i] == rest[i]);
            }
        }
    }
}

/// The histogram counts every event date exactly once: when bins are asked for, the counts
/// of all bins add up to the number of dates.
pub proof fn lemma_histogram_counts_every_date(dates: Seq<i64>, requested: u32)
    requires
        dates.len() > 0,
        requested > 0,
    ensures
        counted(
            dates,
            seq_min(dates),
            seq_max(dates),
            bin_total(dates, requested) as int,
            bin_total(dates, requested) as int,
        ) == dates.len(),
{
    lemma_min_le_max(dates);
    lemma_dates_within(dates);
    lemma_counted_within(dates, seq_min(dates), seq_max(dates), bin_total(dates, requested) as int);
}

} // verus!
