use vstd::prelude::*;

use std::collections::{HashMap, HashSet};

use crate::error::FerricAlphaError;

verus! {

/// A row of a mean-return frame as the spread reads it: its quantile, the cell that its
/// date, group and period make (by number; none when the period is missing), and whether
/// its value is a finite number.
#[derive(Debug, Clone, Copy, PartialEq, Eq)]
pub struct SpreadRow {
    pub quantile: Option<u32>,
    pub cell: Option<u64>,
    pub finite: bool,
}

/// One cell of a spread: the rows of the upper and of the lower quantile, and the rows that
/// hold their standard errors, where the error frame has them.
#[derive(Debug, Clone, Copy, PartialEq, Eq)]
pub struct SpreadPair {
    pub upper: usize,
    pub lower: usize,
    pub upper_error: Option<usize>,
    pub lower_error: Option<usize>,
}

/// Row `i` holds a finite value for `quantile` in `cell`.
pub open spec fn holds(rows: Seq<SpreadRow>, i: int, quantile: u32, cell: u64) -> bool {
    0 <= i < rows.len() && rows[i].finite && rows[i].quantile == Some(quantile) && rows[i].cell
        == Some(cell)
}

/// Some row holds a finite value for `quantile` in `cell`.
pub open spec fn keyed(rows: Seq<SpreadRow>, quantile: u32, cell: u64) -> bool {
    exists|i: int| holds(rows, i, quantile, cell)
}

pub open spec fn spread_error(reason: &'static str) -> FerricAlphaError {
    FerricAlphaError::InvalidInput { operation: "compute_mean_returns_spread", reason }
}

/// The rule that row `k` breaks as the rows are read in order, if any: a missing quantile,
/// a missing period, or a finite value for a quantile and cell that an earlier row holds.
pub open spec fn row_error(rows: Seq<SpreadRow>, k: int) -> Option<FerricAlphaError> {
    if rows[k].quantile is None {
        Some(spread_error("factor_quantile must not be null"))
    } else if rows[k].cell is None {
        Some(spread_error("period must not be null"))
    } else if rows[k].finite && exists|j: int|
        0 <= j < k && #[trigger] holds(rows, j, rows[k].quantile->0, rows[k].cell->0) {
        Some(FerricAlphaError::DuplicateKey)
    } else {
        None
    }
}

/// No row of the frame breaks a rule.
pub open spec fn frame_ok(rows: Seq<SpreadRow>) -> bool {
    forall|k: int| 0 <= k < rows.len() ==> #[trigger] row_error(rows, k) is None
}

/// `e` is the error of the first row that breaks a rule.
pub open spec fn first_error(rows: Seq<SpreadRow>, e: FerricAlphaError) -> bool {
    exists|k: int|
        0 <= k < rows.len() && row_error(rows, k) == Some(e) && forall|j: int|
            0 <= j < k ==> #[trigger] row_error(rows, j) is None
}

/// Row `i` holds a finite value of one of the two quantiles.
pub open spec fn in_spread(rows: Seq<SpreadRow>, i: int, upper: u32, lower: u32) -> bool {
    0 <= i < rows.len() && rows[i].finite && (rows[i].quantile == Some(upper)
        || rows[i].quantile == Some(lower))
}

/// A finite row of either quantile whose cell lacks a finite value of the upper or of the
/// lower quantile.
pub open spec fn unmatched(rows: Seq<SpreadRow>, upper: u32, lower: u32) -> bool {
    exists|i: int|
        #[trigger] in_spread(rows, i, upper, lower) && !(keyed(rows, upper, rows[i].cell->0)
            && keyed(rows, lower, rows[i].cell->0))
}

/// What an error frame gives for `quantile` in `cell`: nothing without an error frame, else
/// the row that holds it, when one does.
pub open spec fn error_found(
    errors: Option<Seq<SpreadRow>>,
    quantile: u32,
    cell: u64,
    found: Option<usize>,
) -> bool {
    match errors {
        None => found is None,
        Some(e) => match found {
            Some(k) => holds(e, k as int, quantile, cell),
            None => !keyed(e, quantile, cell),
        },
    }
}

/// The cell of a pair: that of its upper row.
pub open spec fn pair_cell(rows: Seq<SpreadRow>, p: SpreadPair) -> u64 {
    rows[p.upper as int].cell->0
}

/// A pair of rows of one cell, with what the error frame holds for it.
pub open spec fn pair_ok(
    rows: Seq<SpreadRow>,
    errors: Option<Seq<SpreadRow>>,
    upper: u32,
    lower: u32,
    p: SpreadPair,
) -> bool {
    &&& holds(rows, p.upper as int, upper, pair_cell(rows, p))
    &&& holds(rows, p.lower as int, lower, pair_cell(rows, p))
    &&& error_found(errors, upper, pair_cell(rows, p), p.upper_error)
    &&& error_found(errors, lower, pair_cell(rows, p), p.lower_error)
}

/// A quantile and a cell packed into one number, distinct for distinct pairs.
pub open spec fn pack(quantile: u32, cell: u64) -> int {
    quantile as int * 0x1_0000_0000_0000_0000 + cell as int
}

proof fn lemma_pack_injective(q1: u32, c1: u64, q2: u32, c2: u64)
    ensures
        pack(q1, c1) == pack(q2, c2) <==> (q1 == q2 && c1 == c2),
        0 <= pack(q1, c1) <= u128::MAX,
{
}

fn pack_key(quantile: u32, cell: u64) -> (r: u128)
    ensures
        r == pack(quantile, cell),
{
    quantile as u128 * 0x1_0000_0000_0000_0000u128 + cell as u128
}

/// The upper and lower quantiles of a spread must differ.
pub fn check_quantile_pair(upper: u32, lower: u32) -> (r: Result<(), FerricAlphaError>)
    ensures
        upper == lower ==> r == Err::<(), FerricAlphaError>(
            spread_error("upper and lower quantiles must differ"),
        ),
        upper != lower ==> r is Ok,
{
    if upper == lower {
        Err(FerricAlphaError::InvalidInput {
            operation: "compute_mean_returns_spread",
            reason: "upper and lower quantiles must differ",
        })
    } else {
        Ok(())
    }
}

/// The index of a frame's finite values by quantile and cell.
pub open spec fn indexes(m: Map<u128, usize>, rows: Seq<SpreadRow>) -> bool {
    forall|q: u32, c: u64|
        #![trigger pack(q, c)]
        (m.contains_key(pack(q, c) as u128) <==> keyed(rows, q, c)) && (m.contains_key(
            pack(q, c) as u128,
        ) ==> holds(rows, m[pack(q, c) as u128] as int, q, c))
}

/// Reads the rows in order into an index of their finite values by quantile and cell; the
/// first row that breaks a rule decides the error.
fn index_rows(rows: &[SpreadRow]) -> (r: Result<HashMap<u128, usize>, FerricAlphaError>)
    ensures
        r is Ok <==> frame_ok(rows@),
        r matches Err(e) ==> first_error(rows@, e),
        r matches Ok(m) ==> indexes(m@, rows@),
{
    broadcast use vstd::std_specs::hash::group_hash_axioms;

    let n: usize = rows.len();
    let mut map: HashMap<u128, usize> = HashMap::new();
    let mut i: usize = 0;
    while i < n
        invariant
            n == rows@.len(),
            i <= n,
            forall|k: int| 0 <= k < i ==> #[trigger] row_error(rows@, k) is None,
            forall|x: u128|
                #![trigger map@.contains_key(x)]
                map@.contains_key(x) ==> (map@[x] < i && holds(
                    rows@,
                    map@[x] as int,
                    rows@[map@[x] as int].quantile->0,
                    rows@[map@[x] as int].cell->0,
                ) && x == pack(rows@[map@[x] as int].quantile->0, rows@[map@[x] as int].cell->0)),
            forall|k: int|
                0 <= k < i && #[trigger] rows@[k].finite ==> map@.contains_key(
                    pack(rows@[k].quantile->0, rows@[k].cell->0) as u128,
                ),
        decreases n - i,
    {
        let row: SpreadRow = rows[i];
        let quantile: u32 = match row.quantile {
            Some(q) => q,
            None => {
                return Err(FerricAlphaError::InvalidInput {
                    operation: "compute_mean_returns_spread",
                    reason: "factor_quantile must not be null",
                });
            },
        };
        let cell: u64 = match row.cell {
            Some(c) => c,
            None => {
                return Err(FerricAlphaError::InvalidInput {
                    operation: "compute_mean_returns_spread",
                    reason: "period must not be null",
                });
            },
        };
        if row.finite {
            let key: u128 = pack_key(quantile, cell);
            proof {
                lemma_pack_injective(quantile, cell, quantile, cell);
            }
            let previous: Option<usize> = map.insert(key, i);
            match previous {
                Some(j) => {
                    proof {
                        lemma_pack_injective(
                            rows@[j as int].quantile->0,
                            rows@[j as int].cell->0,
                            quantile,
                            cell,
                        );
                        assert(holds(rows@, j as int, quantile, cell));
                    }
                    return Err(FerricAlphaError::DuplicateKey);
                },
                None => {},
            }
            proof {
                assert forall|j: int| 0 <= j < i implies !#[trigger] holds(
                    rows@,
                    j,
                    quantile,
                    cell,
                ) by {
                    if holds(rows@, j, quantile, cell) {
                        assert(rows@[j].finite);
                    }
                }
            }
        }
        proof {
            assert(row_error(rows@, i as int) is None);
        }
        i = i + 1;
    }
    proof {
        assert forall|q: u32, c: u64|
            #![trigger pack(q, c)]
            (map@.contains_key(pack(q, c) as u128) <==> keyed(rows@, q, c)) && (map@.contains_key(
                pack(q, c) as u128,
            ) ==> holds(rows@, map@[pack(q, c) as u128] as int, q, c)) by {
            lemma_pack_injective(q, c, q, c);
            let x = pack(q, c) as u128;
            if map@.contains_key(x) {
                let j = map@[x] as int;
                lemma_pack_injective(rows@[j].quantile->0, rows@[j].cell->0, q, c);
            }
            if keyed(rows@, q, c) {
                let k = choose|k: int| holds(rows@, k, q, c);
                assert(rows@[k].finite);
            }
        }
    }
    Ok(map)
}

/// Every cell with a finite value of either quantile has a pair.
pub open spec fn covers_spread(rows: Seq<SpreadRow>, pairs: Seq<SpreadPair>, upper: u32, lower: u32) -> bool {
    forall|i: int|
        #[trigger] in_spread(rows, i, upper, lower) ==> exists|k: int|
            0 <= k < pairs.len() && pair_cell(rows, #[trigger] pairs[k]) == rows[i].cell->0
}

/// The rows of an error frame, when there is one.
pub open spec fn error_rows(errors: Option<&[SpreadRow]>) -> Option<Seq<SpreadRow>> {
    match errors {
        Some(e) => Some(e@),
        None => None,
    }
}

/// Looks up what an error frame's index gives for `quantile` in `cell`.
fn error_lookup(
    errors: &Option<HashMap<u128, usize>>,
    error_rows: Ghost<Option<Seq<SpreadRow>>>,
    quantile: u32,
    cell: u64,
) -> (r: Option<usize>)
    requires
        errors is None <==> error_rows@ is None,
        errors matches Some(m) ==> indexes(m@, error_rows@->0),
    ensures
        error_found(error_rows@, quantile, cell, r),
{
    broadcast use vstd::std_specs::hash::group_hash_axioms;

    match errors {
        None => None,
        Some(m) => {
            let key: u128 = pack_key(quantile, cell);
            proof {
                lemma_pack_injective(quantile, cell, quantile, cell);
                assert(key == pack(quantile, cell) as u128);
            }
            match m.get(&key) {
                Some(k) => Some(*k),
                None => None,
            }
        },
    }
}

/// Pairs the rows of the upper and the lower quantile cell by cell, for the difference of
/// their means; each pair also names the rows of an error frame that hold their standard
/// errors.
///
/// The quantiles must differ; the rows of the mean frame, then those of the error frame,
/// are read in order, and the first one without a quantile or a period, or with a finite
/// value for a quantile and cell that an earlier row holds, is refused; and every cell with
/// a finite value of either quantile must have finite values of both.
pub fn spread_pairs(
    rows: &[SpreadRow],
    errors: Option<&[SpreadRow]>,
    upper: u32,
    lower: u32,
) -> (r: Result<Vec<SpreadPair>, FerricAlphaError>)
    ensures
        upper == lower ==> r == Err::<Vec<SpreadPair>, FerricAlphaError>(
            spread_error("upper and lower quantiles must differ"),
        ),
        upper != lower && !frame_ok(rows@) ==> (r matches Err(e) && first_error(rows@, e)),
        upper != lower && frame_ok(rows@) && (errors matches Some(e) && !frame_ok(e@)) ==> (
        r matches Err(x) && first_error(errors->0@, x)),
        upper != lower && frame_ok(rows@) && !(errors matches Some(e) && !frame_ok(e@))
            && unmatched(rows@, upper, lower) ==> r == Err::<Vec<SpreadPair>, FerricAlphaError>(
            spread_error("upper and lower quantile keys must both exist"),
        ),
        upper != lower && frame_ok(rows@) && !(errors matches Some(e) && !frame_ok(e@))
            && !unmatched(rows@, upper, lower) ==> r is Ok,
        r matches Ok(pairs) ==> {
            let err_view = error_rows(errors);
            &&& forall|k: int|
                0 <= k < pairs@.len() ==> #[trigger] pair_ok(
                    rows@,
                    err_view,
                    upper,
                    lower,
                    pairs@[k],
                )
            &&& forall|a: int, b: int|
                0 <= a < b < pairs@.len() ==> pair_cell(rows@, #[trigger] pairs@[a]) != pair_cell(
                    rows@,
                    #[trigger] pairs@[b],
                )
            &&& covers_spread(rows@, pairs@, upper, lower)
        },
{
    broadcast use vstd::std_specs::hash::group_hash_axioms;

    check_quantile_pair(upper, lower)?;
    let index: HashMap<u128, usize> = index_rows(rows)?;
    let error_index: Option<HashMap<u128, usize>> = match errors {
        None => None,
        Some(e) => Some(index_rows(e)?),
    };
    let ghost err_view: Option<Seq<SpreadRow>> = error_rows(errors);
    let n: usize = rows.len();
    let mut pairs: Vec<SpreadPair> = Vec::new();
    let mut done: HashSet<u64> = HashSet::new();
    let mut i: usize = 0;
    while i < n
        invariant
            n == rows@.len(),
            i <= n,
            upper != lower,
            frame_ok(rows@),
            !(errors matches Some(e) && !frame_ok(e@)),
            indexes(index@, rows@),
            error_index is None <==> err_view is None,
            error_index matches Some(m) ==> indexes(m@, err_view->0),
            forall|k: int|
                0 <= k < pairs@.len() ==> #[trigger] pair_ok(
                    rows@,
                    err_view,
                    upper,
                    lower,
                    pairs@[k],
                ),
            forall|a: int, b: int|
                0 <= a < b < pairs@.len() ==> pair_cell(rows@, #[trigger] pairs@[a]) != pair_cell(
                    rows@,
                    #[trigger] pairs@[b],
                ),
            forall|c: u64|
                done@.contains(c) <==> exists|k: int|
                    0 <= k < pairs@.len() && pair_cell(rows@, #[trigger] pairs@[k]) == c,
            forall|j: int|
                0 <= j < i && #[trigger] in_spread(rows@, j, upper, lower) ==> done@.contains(
                    rows@[j].cell->0,
                ) && keyed(rows@, upper, rows@[j].cell->0) && keyed(rows@, lower, rows@[j].cell->0),
        decreases n - i,
    {
        let row: SpreadRow = rows[i];
        proof {
            assert(row_error(rows@, i as int) is None);
        }
        let cell: u64 = match row.cell {
            Some(c) => c,
            None => 0,
        };
        let member: bool = row.finite && (row.quantile == Some(upper) || row.quantile == Some(
            lower,
        ));
        if member && !done.contains(&cell) {
            let upper_key: u128 = pack_key(upper, cell);
            let lower_key: u128 = pack_key(lower, cell);
            proof {
                lemma_pack_injective(upper, cell, upper, cell);
                lemma_pack_injective(lower, cell, lower, cell);
                assert(upper_key == pack(upper, cell) as u128);
                assert(lower_key == pack(lower, cell) as u128);
            }
            let found_upper: Option<&usize> = index.get(&upper_key);
            let found_lower: Option<&usize> = index.get(&lower_key);
            match (found_upper, found_lower) {
                (Some(u), Some(l)) => {
                    let u: usize = *u;
                    let l: usize = *l;
                    let upper_error: Option<usize> = error_lookup(
                        &error_index,
                        Ghost(err_view),
                        upper,
                        cell,
                    );
                    let lower_error: Option<usize> = error_lookup(
                        &error_index,
                        Ghost(err_view),
                        lower,
                        cell,
                    );
                    let pair = SpreadPair { upper: u, lower: l, upper_error, lower_error };
                    proof {
                        assert(holds(rows@, u as int, upper, cell));
                        assert(pair_cell(rows@, pair) == cell);
                        assert(pair_ok(rows@, err_view, upper, lower, pair));
                    }
                    let ghost prev: Seq<SpreadPair> = pairs@;
                    let ghost prev_done: Set<u64> = done@;
                    pairs.push(pair);
                    done.insert(cell);
                    proof {
                        assert forall|k: int|
                            0 <= k < pairs@.len() implies #[trigger] pair_ok(
                                rows@,
                                err_view,
                                upper,
                                lower,
                                pairs@[k],
                            ) by {
                            if k < pairs@.len() - 1 {
                                assert(pairs@[k] == prev[k]);
                            }
                        }
                        assert forall|a: int, b: int|
                            0 <= a < b < pairs@.len() implies pair_cell(rows@, #[trigger] pairs@[a])
                                != pair_cell(rows@, #[trigger] pairs@[b]) by {
                            assert(pairs@[a] == prev[a]);
                            if b < pairs@.len() - 1 {
                                assert(pairs@[b] == prev[b]);
                            } else {
                                assert(prev_done.contains(pair_cell(rows@, prev[a])));
                                assert(!prev_done.contains(cell));
                            }
                        }
                        assert forall|c: u64|
                            done@.contains(c) <==> exists|k: int|
                                0 <= k < pairs@.len() && pair_cell(rows@, #[trigger] pairs@[k]) == c by {
                            if c == cell {
                                assert(pair_cell(rows@, pairs@[pairs@.len() - 1]) == c);
                            } else if done@.contains(c) {
                                let k = choose|k: int|
                                    0 <= k < prev.len() && pair_cell(rows@, #[trigger] prev[k]) == c;
                                assert(pairs@[k] == prev[k]);
                            } else {
                                assert forall|k: int|
                                    0 <= k < pairs@.len() implies pair_cell(rows@, #[trigger] pairs@[k])
                                    != c by {
                                    if k < pairs@.len() - 1 {
                                        assert(pairs@[k] == prev[k]);
                                    }
                                }
                            }
                        }
                    }
                },
                _ => {
                    proof {
                        assert(in_spread(rows@, i as int, upper, lower));
                    }
                    return Err(FerricAlphaError::InvalidInput {
                        operation: "compute_mean_returns_spread",
                        reason: "upper and lower quantile keys must both exist",
                    });
                },
            }
        }
        proof {
            if in_spread(rows@, i as int, upper, lower) {
                assert(done@.contains(cell));
                let k = choose|k: int|
                    0 <= k < pairs@.len() && pair_cell(rows@, #[trigger] pairs@[k]) == cell;
                assert(pair_ok(rows@, err_view, upper, lower, pairs@[k]));
                assert(holds(rows@, pairs@[k].upper as int, upper, cell));
                assert(holds(rows@, pairs@[k].lower as int, lower, cell));
            }
        }
        i = i + 1;
    }
    proof {
        assert forall|j: int| #[trigger] in_spread(rows@, j, upper, lower) implies keyed(
            rows@,
            upper,
            rows@[j].cell->0,
        ) && keyed(rows@, lower, rows@[j].cell->0) by {}
        assert(!unmatched(rows@, upper, lower));
        assert forall|j: int| #[trigger] in_spread(rows@, j, upper, lower) implies exists|k: int|
            0 <= k < pairs@.len() && pair_cell(rows@, #[trigger] pairs@[k]) == rows@[j].cell->0 by {
            assert(done@.contains(rows@[j].cell->0));
        }
        assert(covers_spread(rows@, pairs@, upper, lower));
    }
    Ok(pairs)
}

} // verus!
