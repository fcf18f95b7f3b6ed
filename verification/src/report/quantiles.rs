use vstd::prelude::*;

use crate::sorted::{insert_sorted_u32, u32s_sorted};

verus! {

/// A factor row as the quantile statistics read it: its quantile, and whether it carries a
/// finite factor value.
#[derive(Debug, Clone, Copy, PartialEq, Eq)]
pub struct StatRow {
    pub quantile: Option<u32>,
    pub has_factor: bool,
}

/// A quantile of the statistics table and the rows whose factor values describe it.
#[derive(Debug, Clone, PartialEq, Eq)]
pub struct QuantileMembers {
    pub quantile: u32,
    pub rows: Vec<usize>,
}

/// A row in quantile `q` with a factor value.
pub open spec fn member(row: StatRow, q: u32) -> bool {
    row.quantile == Some(q) && row.has_factor
}

/// The indexes of the rows in quantile `q` with a factor value, in order.
pub open spec fn members_of(rows: Seq<StatRow>, q: u32) -> Seq<usize>
    decreases rows.len(),
{
    if rows.len() == 0 {
        Seq::empty()
    } else {
        let rest = members_of(rows.drop_last(), q);
        if member(rows.last(), q) {
            rest.push((rows.len() - 1) as usize)
        } else {
            rest
        }
    }
}

/// Quantile `q` is a positive quantile that some row carries.
pub open spec fn observed(rows: Seq<StatRow>, q: u32) -> bool {
    q > 0 && exists|i: int| 0 <= i < rows.len() && #[trigger] rows[i].quantile == Some(q)
}

/// The positive quantiles that the rows carry, in increasing order, each with the rows of
/// its factor values; quantile zero and rows without a quantile are left out, and a
/// quantile none of whose rows has a factor value is kept with no rows.
pub fn quantile_members(rows: &[StatRow]) -> (r: Vec<QuantileMembers>)
    ensures
        forall|a: int, b: int| 0 <= a < b < r@.len() ==> r@[a].quantile < r@[b].quantile,
        forall|q: u32|
            (exists|k: int| 0 <= k < r@.len() && #[trigger] r@[k].quantile == q) <==> observed(
                rows@,
                q,
            ),
        forall|k: int| 0 <= k < r@.len() ==> #[trigger] r@[k].rows@ == members_of(rows@, r@[k].quantile),
{
    let n: usize = rows.len();
    let mut quantiles: Vec<u32> = Vec::new();
    let mut i: usize = 0;
    while i < n
        invariant
            n == rows@.len(),
            i <= n,
            u32s_sorted(quantiles@),
            forall|q: u32|
                #[trigger] quantiles@.contains(q) <==> (q > 0 && exists|j: int|
                    0 <= j < i && #[trigger] rows@[j].quantile == Some(q)),
        decreases n - i,
    {
        match rows[i].quantile {
            Some(q) => {
                if q > 0 {
                    insert_sorted_u32(&mut quantiles, q);
                }
            },
            None => {},
        }
        proof {
            assert forall|q: u32|
                #[trigger] quantiles@.contains(q) <==> (q > 0 && exists|j: int|
                    0 <= j < i + 1 && #[trigger] rows@[j].quantile == Some(q)) by {
                if q > 0 && rows@[i as int].quantile == Some(q) {
                    assert(quantiles@.contains(q));
                }
            }
        }
        i = i + 1;
    }
    let m: usize = quantiles.len();
    let mut out: Vec<QuantileMembers> = Vec::new();
    let mut k: usize = 0;
    while k < m
        invariant
            n == rows@.len(),
            m == quantiles@.len(),
            k <= m,
            out@.len() == k,
            forall|a: int| 0 <= a < k ==> #[trigger] out@[a].quantile == quantiles@[a],
            forall|a: int| 0 <= a < k ==> #[trigger] out@[a].rows@ == members_of(rows@, out@[a].quantile),
        decreases m - k,
    {
        let q: u32 = quantiles[k];
        let mut found: Vec<usize> = Vec::new();
        let mut i: usize = 0;
        while i < n
            invariant
                n == rows@.len(),
                i <= n,
                found@ == members_of(rows@.subrange(0, i as int), q),
            decreases n - i,
        {
            proof {
                let next = rows@.subrange(0, i + 1);
                assert(next.drop_last() == rows@.subrange(0, i as int));
                assert(next.last() == rows@[i as int]);
            }
            if rows[i].quantile == Some(q) && rows[i].has_factor {
                found.push(i);
            }
            i = i + 1;
        }
        proof {
            assert(rows@.subrange(0, n as int) == rows@);
        }
        out.push(QuantileMembers { quantile: q, rows: found });
        k = k + 1;
    }
    proof {
        assert forall|q: u32|
            (exists|a: int| 0 <= a < out@.len() && #[trigger] out@[a].quantile == q) <==> observed(
                rows@,
                q,
            ) by {
            if exists|a: int| 0 <= a < out@.len() && #[trigger] out@[a].quantile == q {
                let a = choose|a: int| 0 <= a < out@.len() && #[trigger] out@[a].quantile == q;
                assert(quantiles@.contains(q));
            }
            if observed(rows@, q) {
                assert(quantiles@.contains(q));
                let a = choose|a: int| 0 <= a < quantiles@.len() && quantiles@[a] == q;
                assert(out@[a].quantile == q);
            }
        }
    }
    out
}

/// The rows with a factor value in a positive quantile.
pub open spec fn factor_rows(rows: Seq<StatRow>) -> nat
    decreases rows.len(),
{
    if rows.len() == 0 {
        0
    } else {
        factor_rows(rows.drop_last()) + if rows.last().has_factor && (rows.last().quantile matches Some(
            q,
        ) && q > 0) {
            1nat
        } else {
            0nat
        }
    }
}

/// The rows of the quantiles `qs`, counted over all of them.
pub open spec fn member_total(rows: Seq<StatRow>, qs: Seq<u32>) -> nat
    decreases qs.len(),
{
    if qs.len() == 0 {
        0
    } else {
        member_total(rows, qs.drop_last()) + members_of(rows, qs.last()).len()
    }
}

/// How many of the quantiles `qs` hold `row`.
pub open spec fn hits(row: StatRow, qs: Seq<u32>) -> nat
    decreases qs.len(),
{
    if qs.len() == 0 {
        0
    } else {
        hits(row, qs.drop_last()) + if member(row, qs.last()) {
            1nat
        } else {
            0nat
        }
    }
}

proof fn lemma_total_step(rows: Seq<StatRow>, qs: Seq<u32>)
    requires
        rows.len() > 0,
    ensures
        member_total(rows, qs) == member_total(rows.drop_last(), qs) + hits(rows.last(), qs),
    decreases qs.len(),
{
    if qs.len() > 0 {
        lemma_total_step(rows, qs.drop_last());
    }
}

proof fn lemma_hits_distinct(row: StatRow, qs: Seq<u32>)
    requires
        forall|a: int, b: int| 0 <= a < b < qs.len() ==> qs[a] != qs[b],
    ensures
        hits(row, qs) == if row.has_factor && (row.quantile matches Some(q) && qs.contains(q)) {
            1nat
        } else {
            0nat
        },
    decreases qs.len(),
{
    if qs.len() > 0 {
        let rest = qs.drop_last();
        lemma_hits_distinct(row, rest);
        if let Some(q) = row.quantile {
            if q == qs.last() {
                assert(!rest.contains(q)) by {
                    if rest.contains(q) {
                        let a = choose|a: int| 0 <= a < rest.len() && rest[a] == q;
                        assert(qs[a] == qs[qs.len() - 1]);
                    }
                }
            } else {
                assert(qs.contains(q) == rest.contains(q)) by {
                    if qs.contains(q) {
                        let a = choose|a: int| 0 <= a < qs.len() && qs[a] == q;
                        assert(rest[a] == q);
                    }
                }
            }
        }
    }
}

/// The quantile statistics count every factor value of a positive quantile exactly once:
/// over positive quantiles without repeats that include every positive quantile the rows
/// carry, the rows of the quantiles add up to the rows with a factor value in a positive
/// quantile.
pub proof fn lemma_members_count_every_value(rows: Seq<StatRow>, qs: Seq<u32>)
    requires
        forall|a: int, b: int| 0 <= a < b < qs.len() ==> qs[a] != qs[b],
        forall|a: int| 0 <= a < qs.len() ==> qs[a] > 0,
        forall|q: u32| observed(rows, q) ==> qs.contains(q),
    ensures
        member_total(rows, qs) == factor_rows(rows),
    decreases rows.len(),
{
    if rows.len() == 0 {
        assert(member_total(rows, qs) == 0) by {
            lemma_empty_total(rows, qs);
        }
    } else {
        let rest = rows.drop_last();
        assert forall|q: u32| observed(rest, q) implies qs.contains(q) by {
            let i = choose|i: int| 0 <= i < rest.len() && #[trigger] rest[i].quantile == Some(q);
            assert(rows[i].quantile == Some(q));
        }
        lemma_members_count_every_value(rest, qs);
        lemma_total_step(rows, qs);
        lemma_hits_distinct(rows.last(), qs);
        if let Some(q) = rows.last().quantile {
            if q > 0 {
                assert(rows[rows.len() - 1].quantile == Some(q));
                assert(observed(rows, q));
            } else {
                assert(!qs.contains(q)) by {
                    if qs.contains(q) {
                        let a = choose|a: int| 0 <= a < qs.len() && qs[a] == q;
                    }
                }
            }
        }
    }
}

proof fn lemma_empty_total(rows: Seq<StatRow>, qs: Seq<u32>)
    requires
        rows.len() == 0,
    ensures
        member_total(rows, qs) == 0,
    decreases qs.len(),
{
    if qs.len() > 0 {
        lemma_empty_total(rows, qs.drop_last());
    }
}

} // verus!
