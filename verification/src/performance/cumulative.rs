use vstd::prelude::*;

use std::collections::HashSet;

use crate::data::{lemma_pack_injective, pack, pack_key};
use crate::error::FerricAlphaError;
use crate::performance::portfolio::validate_period_label;
use crate::report::options::period_label_result;

verus! {

/// The key of a return-series row: its date, and its period label where the series has a
/// period column, with a number that stands for the label.
#[derive(Debug, Clone, PartialEq, Eq)]
pub struct ReturnKey {
    pub date: i64,
    pub period: Option<String>,
    pub period_id: u64,
}

pub open spec fn label_of(k: ReturnKey) -> Option<Seq<char>> {
    match k.period {
        Some(p) => Some(p@),
        None => None,
    }
}

/// Equal label numbers stand for equal labels, and only for them.
pub open spec fn ids_agree(rows: Seq<ReturnKey>) -> bool {
    forall|i: int, j: int|
        0 <= i < rows.len() && 0 <= j < rows.len() ==> (#[trigger] rows[i].period_id
            == #[trigger] rows[j].period_id <==> label_of(rows[i]) == label_of(rows[j]))
}

/// Two rows with the same date and, where the series has periods, the same period.
pub open spec fn same_key(a: ReturnKey, b: ReturnKey, has_period: bool) -> bool {
    a.date == b.date && (has_period ==> a.period_id == b.period_id)
}

pub open spec fn returns_error(reason: &'static str) -> FerricAlphaError {
    FerricAlphaError::InvalidInput { operation: "cumulative_returns", reason }
}

/// The rule that row `k` breaks, if any: a missing period, a period that is not a positive
/// daily count, or a key that an earlier row has.
pub open spec fn row_error(rows: Seq<ReturnKey>, has_period: bool, k: int) -> Option<
    FerricAlphaError,
> {
    if has_period && rows[k].period is None {
        Some(returns_error("period must not contain null values"))
    } else if has_period && period_label_result(rows[k].period->0@) is Err {
        Some(returns_error("period must be a positive daily count"))
    } else if exists|j: int| 0 <= j < k && same_key(#[trigger] rows[j], rows[k], has_period) {
        Some(returns_error("return series keys must be unique"))
    } else {
        None
    }
}

/// Row `k` starts a new period, so that wealth starts again from one.
pub open spec fn starts_period(rows: Seq<ReturnKey>, has_period: bool, k: int) -> bool {
    k > 0 && has_period && rows[k].period_id != rows[k - 1].period_id
}

/// What the keys of a return series allow: for the rows read, whether each starts a new
/// period; and the first row that breaks a rule, with its error, if one does.
#[derive(Debug, Clone, PartialEq, Eq)]
pub struct ReturnKeyCheck {
    pub starts: Vec<bool>,
    pub failure: Option<(usize, FerricAlphaError)>,
}

/// Checks the keys of a return series in order and marks the rows where a new period
/// starts. The rows are read up to the first one that breaks a rule, which is reported
/// with its error, so that the caller can weigh it against what the values of the earlier
/// rows do.
pub fn check_return_keys(rows: &[ReturnKey], has_period: bool) -> (r: ReturnKeyCheck)
    requires
        has_period ==> ids_agree(rows@),
    ensures
        forall|k: int| 0 <= k < r.starts@.len() ==> #[trigger] row_error(rows@, has_period, k) is None,
        forall|k: int| 0 <= k < r.starts@.len() ==> #[trigger] r.starts@[k] == starts_period(rows@, has_period, k),
        match r.failure {
            None => r.starts@.len() == rows@.len(),
            Some((k, e)) => k == r.starts@.len() && k < rows@.len() && row_error(rows@, has_period, k as int) == Some(e),
        },
{
    broadcast use vstd::std_specs::hash::group_hash_axioms;

    let n: usize = rows.len();
    let mut starts: Vec<bool> = Vec::new();
    let mut seen: HashSet<u128> = HashSet::new();
    let mut i: usize = 0;
    while i < n
        invariant
            n == rows@.len(),
            i <= n,
            has_period ==> ids_agree(rows@),
            starts@.len() == i,
            forall|k: int| 0 <= k < i ==> #[trigger] row_error(rows@, has_period, k) is None,
            forall|k: int| 0 <= k < i ==> #[trigger] starts@[k] == starts_period(rows@, has_period, k),
            forall|x: u128|
                seen@.contains(x) <==> exists|j: int|
                    0 <= j < i && x == pack(
                        #[trigger] rows@[j].date,
                        if has_period { rows@[j].period_id } else { 0 },
                    ),
        decreases n - i,
    {
        if has_period {
            match &rows[i].period {
                None => {
                    return ReturnKeyCheck {
                        starts,
                        failure: Some(
                            (
                                i,
                                FerricAlphaError::InvalidInput {
                                    operation: "cumulative_returns",
                                    reason: "period must not contain null values",
                                },
                            ),
                        ),
                    };
                },
                Some(label) => {
                    match validate_period_label(label.as_str()) {
                        Ok(()) => {},
                        Err(e) => {
                            return ReturnKeyCheck { starts, failure: Some((i, e)) };
                        },
                    }
                },
            }
        }
        let id: u64 = if has_period {
            rows[i].period_id
        } else {
            0
        };
        let date: i64 = rows[i].date;
        let packed: u128 = pack_key(date, id);
        proof {
            lemma_pack_injective(date, id, date, id);
        }
        let fresh: bool = seen.insert(packed);
        if !fresh {
            proof {
                let j = choose|j: int|
                    0 <= j < i && packed == pack(
                        #[trigger] rows@[j].date,
                        if has_period { rows@[j].period_id } else { 0 },
                    );
                lemma_pack_injective(
                    rows@[j].date,
                    if has_period { rows@[j].period_id } else { 0 },
                    date,
                    id,
                );
                assert(same_key(rows@[j], rows@[i as int], has_period));
            }
            return ReturnKeyCheck {
                starts,
                failure: Some(
                    (
                        i,
                        FerricAlphaError::InvalidInput {
                            operation: "cumulative_returns",
                            reason: "return series keys must be unique",
                        },
                    ),
                ),
            };
        }
        let start: bool = i > 0 && has_period && rows[i].period_id != rows[i - 1].period_id;
        starts.push(start);
        proof {
            assert forall|j: int| 0 <= j < i implies !same_key(
                #[trigger] rows@[j],
                rows@[i as int],
                has_period,
            ) by {
                lemma_pack_injective(
                    rows@[j].date,
                    if has_period { rows@[j].period_id } else { 0 },
                    date,
                    id,
                );
            }
            assert(row_error(rows@, has_period, i as int) is None);
            assert forall|x: u128|
                seen@.contains(x) <==> exists|j: int|
                    0 <= j < i + 1 && x == pack(
                        #[trigger] rows@[j].date,
                        if has_period { rows@[j].period_id } else { 0 },
                    ) by {
                if x == packed {
                    assert(x == pack(
                        rows@[i as int].date,
                        if has_period { rows@[i as int].period_id } else { 0 },
                    ));
                }
            }
        }
        i = i + 1;
    }
    ReturnKeyCheck { starts, failure: None }
}

} // verus!
