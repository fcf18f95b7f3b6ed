use vstd::prelude::*;

use crate::calendar::Period;
use crate::error::FerricAlphaError;

verus! {

/// One row of quantile-assigned factor data: its date, its asset (by id) and its quantile.
#[derive(Debug, Clone, Copy, PartialEq, Eq)]
pub struct TurnoverRow {
    pub date: i64,
    pub asset: u64,
    pub quantile: Option<u32>,
}

/// The turnover inputs of one date: how many assets entered the quantile since `period`
/// dates before, and how many it holds; `None` for the first dates or an empty quantile.
#[derive(Debug, Clone, Copy, PartialEq, Eq)]
pub struct TurnoverPoint {
    pub date: i64,
    pub counts: Option<(u64, u64)>,
}

pub open spec fn key_lt(a: (i64, u64), b: (i64, u64)) -> bool {
    a.0 < b.0 || (a.0 == b.0 && a.1 < b.1)
}

pub open spec fn keys_sorted(s: Seq<(i64, u64)>) -> bool {
    forall|i: int, j: int| 0 <= i < j < s.len() ==> key_lt(s[i], s[j])
}

pub open spec fn dates_sorted(s: Seq<i64>) -> bool {
    forall|i: int, j: int| 0 <= i < j < s.len() ==> s[i] < s[j]
}

/// How many of `rows` satisfy `p`.
pub open spec fn count_where(rows: Seq<TurnoverRow>, p: spec_fn(TurnoverRow) -> bool) -> nat
    decreases rows.len(),
{
    if rows.len() == 0 {
        0
    } else {
        count_where(rows.drop_last(), p) + if p(rows.last()) {
            1nat
        } else {
            0nat
        }
    }
}

/// Some row puts `asset` in quantile `q` on `date`.
pub open spec fn member(rows: Seq<TurnoverRow>, date: i64, asset: u64, q: u32) -> bool {
    exists|k: int|
        0 <= k < rows.len() && #[trigger] rows[k] == (TurnoverRow {
            date,
            asset,
            quantile: Some(q),
        })
}

/// How many assets quantile `q` holds on `date`.
pub open spec fn held(rows: Seq<TurnoverRow>, date: i64, q: u32) -> nat {
    count_where(rows, |r: TurnoverRow| r.date == date && r.quantile == Some(q))
}

/// How many assets quantile `q` holds on `date` that it did not hold on `previous`.
pub open spec fn entered(rows: Seq<TurnoverRow>, date: i64, previous: i64, q: u32) -> nat {
    count_where(
        rows,
        |r: TurnoverRow| r.date == date && r.quantile == Some(q) && !member(rows, previous, r.asset, q),
    )
}

/// The error row `k` raises, given that the rows before it raised none.
pub open spec fn row_issue(rows: Seq<TurnoverRow>, k: int) -> Option<FerricAlphaError> {
    if rows[k].quantile is None {
        Some(
            FerricAlphaError::InvalidInput {
                operation: "quantile_turnover",
                reason: "factor_quantile must be non-null",
            },
        )
    } else if rows[k].quantile == Some(0u32) {
        Some(
            FerricAlphaError::InvalidInput {
                operation: "quantile_turnover",
                reason: "factor_quantile must be positive",
            },
        )
    } else if exists|j: int|
        0 <= j < k && rows[j].date == rows[k].date && #[trigger] rows[j].asset == rows[k].asset {
        Some(FerricAlphaError::DuplicateKey)
    } else {
        None
    }
}

pub open spec fn has_date(rows: Seq<TurnoverRow>, d: i64) -> bool {
    exists|k: int| 0 <= k < rows.len() && #[trigger] rows[k].date == d
}

proof fn lemma_count_step(rows: Seq<TurnoverRow>, k: int, p: spec_fn(TurnoverRow) -> bool)
    requires
        0 <= k < rows.len(),
    ensures
        count_where(rows.subrange(0, k + 1), p) == count_where(rows.subrange(0, k), p) + if p(
            rows[k],
        ) {
            1nat
        } else {
            0nat
        },
{
    assert(rows.subrange(0, k + 1).drop_last() =~= rows.subrange(0, k));
}

proof fn lemma_count_le(rows: Seq<TurnoverRow>, p: spec_fn(TurnoverRow) -> bool)
    ensures
        count_where(rows, p) <= rows.len(),
    decreases rows.len(),
{
    if rows.len() > 0 {
        lemma_count_le(rows.drop_last(), p);
    }
}

/// The position at which `key` stands, or would stand, in a sorted key list.
fn key_position(keys: &Vec<(i64, u64)>, key: (i64, u64)) -> (r: usize)
    requires
        keys_sorted(keys@),
    ensures
        r <= keys@.len(),
        forall|k: int| 0 <= k < r ==> key_lt(keys@[k], key),
        forall|k: int| r <= k < keys@.len() ==> !key_lt(keys@[k], key),
{
    let mut lo: usize = 0;
    let mut hi: usize = keys.len();
    while lo < hi
        invariant
            keys_sorted(keys@),
            lo <= hi <= keys@.len(),
            forall|k: int| 0 <= k < lo ==> key_lt(keys@[k], key),
            forall|k: int| hi <= k < keys@.len() ==> !key_lt(keys@[k], key),
        decreases hi - lo,
    {
        let mid: usize = lo + (hi - lo) / 2;
        let m = keys[mid];
        assert(m == keys@[mid as int]);
        if m.0 < key.0 || (m.0 == key.0 && m.1 < key.1) {
            proof {
                assert forall|k: int| 0 <= k < mid + 1 implies key_lt(keys@[k], key) by {
                    if k < mid {
                        assert(key_lt(keys@[k], keys@[mid as int]));
                    }
                }
            }
            lo = mid + 1;
        } else {
            proof {
                assert forall|k: int| mid <= k < keys@.len() implies !key_lt(keys@[k], key) by {
                    if k > mid {
                        assert(key_lt(keys@[mid as int], keys@[k]));
                    }
                }
            }
            hi = mid;
        }
    }
    lo
}

/// Whether a sorted key list holds `key`.
fn holds_key(keys: &Vec<(i64, u64)>, key: (i64, u64)) -> (r: bool)
    requires
        keys_sorted(keys@),
    ensures
        r == keys@.contains(key),
{
    let p: usize = key_position(keys, key);
    if p < keys.len() && keys[p].0 == key.0 && keys[p].1 == key.1 {
        assert(keys@[p as int] == key);
        return true;
    }
    proof {
        if keys@.contains(key) {
            let k = choose|k: int| 0 <= k < keys@.len() && keys@[k] == key;
            if k > p {
                assert(key_lt(keys@[p as int], keys@[k]));
            }
        }
    }
    false
}

/// Adds `key` to a sorted key list that does not hold it.
fn insert_key(keys: &mut Vec<(i64, u64)>, key: (i64, u64))
    requires
        keys_sorted(old(keys)@),
        !old(keys)@.contains(key),
    ensures
        keys_sorted(final(keys)@),
        forall|x: (i64, u64)| #[trigger] final(keys)@.contains(x) <==> (old(keys)@.contains(x) || x == key),
{
    let ghost before = keys@;
    let p: usize = key_position(keys, key);
    proof {
        if p < before.len() {
            assert(before[p as int] != key);
        }
    }
    keys.insert(p, key);
    let ghost after = keys@;
    proof {
        assert forall|k: int| 0 <= k < after.len() implies #[trigger] after[k] == (if k < p {
            before[k]
        } else if k == p {
            key
        } else {
            before[k - 1]
        }) by {}
        assert forall|x: (i64, u64)| after.contains(x) <==> (before.contains(x) || x == key) by {
            if after.contains(x) {
                let k = choose|k: int| 0 <= k < after.len() && after[k] == x;
                if k < p {
                    assert(before[k] == x);
                } else if k > p {
                    assert(before[k - 1] == x);
                }
            }
            if before.contains(x) {
                let k = choose|k: int| 0 <= k < before.len() && before[k] == x;
                if k < p {
                    assert(after[k] == x);
                } else {
                    assert(after[k + 1] == x);
                }
            }
            if x == key {
                assert(after[p as int] == x);
            }
        }
    }
}

/// The position of `d` in a sorted date list, or where it would go.
fn date_position(dates: &Vec<i64>, d: i64) -> (r: usize)
    requires
        dates_sorted(dates@),
    ensures
        r <= dates@.len(),
        forall|k: int| 0 <= k < r ==> dates@[k] < d,
        forall|k: int| r <= k < dates@.len() ==> dates@[k] >= d,
{
    let mut lo: usize = 0;
    let mut hi: usize = dates.len();
    while lo < hi
        invariant
            dates_sorted(dates@),
            lo <= hi <= dates@.len(),
            forall|k: int| 0 <= k < lo ==> dates@[k] < d,
            forall|k: int| hi <= k < dates@.len() ==> dates@[k] >= d,
        decreases hi - lo,
    {
        let mid: usize = lo + (hi - lo) / 2;
        if dates[mid] < d {
            lo = mid + 1;
        } else {
            hi = mid;
        }
    }
    lo
}

/// Counts, for every date of quantile-assigned data, the assets of quantile `quantile`
/// and those among them that were not in it `period` dates before. Every row needs a
/// positive quantile and a date/asset key of its own; the first row that breaks this
/// decides the error.
pub fn quantile_turnover_counts(rows: &[TurnoverRow], quantile: u32, period: Period) -> (r: Result<
    Vec<TurnoverPoint>,
    FerricAlphaError,
>)
    ensures
        quantile == 0 ==> r == Err::<Vec<TurnoverPoint>, FerricAlphaError>(
            FerricAlphaError::InvalidOption {
                option: "quantile",
                reason: "quantile must be positive",
            },
        ),
        quantile > 0 ==> (r is Ok <==> forall|k: int|
            0 <= k < rows@.len() ==> #[trigger] row_issue(rows@, k) is None),
        quantile > 0 ==> (r matches Err(e) ==> exists|k: int|
            0 <= k < rows@.len() && (forall|j: int|
                0 <= j < k ==> #[trigger] row_issue(rows@, j) is None) && row_issue(rows@, k)
                == Some(e)),
        r matches Ok(out) ==> {
            &&& forall|i: int, j: int| 0 <= i < j < out@.len() ==> out@[i].date < out@[j].date
            &&& forall|d: i64| has_date(rows@, d) <==> exists|i: int| 0 <= i < out@.len() && #[trigger] out@[i].date == d
            &&& forall|i: int|
                0 <= i < out@.len() ==> (#[trigger] out@[i]).counts == if i < period.spec_count()
                    || held(rows@, out@[i].date, quantile) == 0 {
                    None
                } else {
                    Some(
                        (
                            entered(
                                rows@,
                                out@[i].date,
                                out@[i - period.spec_count()].date,
                                quantile,
                            ) as u64,
                            held(rows@, out@[i].date, quantile) as u64,
                        ),
                    )
                }
        },
{
    if quantile == 0 {
        return Err(
            FerricAlphaError::InvalidOption {
                option: "quantile",
                reason: "quantile must be positive",
            },
        );
    }
    let n: usize = rows.len();
    let mut dates: Vec<i64> = Vec::new();
    let mut all_keys: Vec<(i64, u64)> = Vec::new();
    let mut in_quantile: Vec<(i64, u64)> = Vec::new();
    let mut i: usize = 0;
    while i < n
        invariant
            n == rows@.len(),
            quantile > 0,
            i <= n,
            forall|k: int| 0 <= k < i ==> #[trigger] row_issue(rows@, k) is None,
            dates_sorted(dates@),
            forall|d: i64| dates@.contains(d) <==> has_date(rows@.subrange(0, i as int), d),
            keys_sorted(all_keys@),
            forall|x: (i64, u64)|
                #[trigger] all_keys@.contains(x) <==> exists|k: int|
                    0 <= k < i && x == (rows@[k].date, #[trigger] rows@[k].asset),
            keys_sorted(in_quantile@),
            forall|x: (i64, u64)|
                #[trigger] in_quantile@.contains(x) <==> member(
                    rows@.subrange(0, i as int),
                    x.0,
                    x.1,
                    quantile,
                ),
        decreases n - i,
    {
        let row: TurnoverRow = rows[i];
        let q: u32 = match row.quantile {
            None => {
                let e = FerricAlphaError::InvalidInput {
                    operation: "quantile_turnover",
                    reason: "factor_quantile must be non-null",
                };
                assert(row_issue(rows@, i as int) == Some(e));
                return Err(e);
            },
            Some(q) => q,
        };
        if q == 0 {
            let e = FerricAlphaError::InvalidInput {
                operation: "quantile_turnover",
                reason: "factor_quantile must be positive",
            };
            assert(row_issue(rows@, i as int) == Some(e));
            return Err(e);
        }
        let key: (i64, u64) = (row.date, row.asset);
        if holds_key(&all_keys, key) {
            proof {
                let k = choose|k: int|
                    0 <= k < i && key == (rows@[k].date, #[trigger] rows@[k].asset);
                assert(rows@[k].date == rows@[i as int].date && rows@[k].asset == rows@[i as int].asset);
                assert(row_issue(rows@, i as int) == Some(FerricAlphaError::DuplicateKey));
            }
            return Err(FerricAlphaError::DuplicateKey);
        }
        let ghost pre = rows@.subrange(0, i as int);
        let ghost post = rows@.subrange(0, i + 1);
        proof {
            assert(post =~= pre.push(row));
            assert(!exists|j: int|
                0 <= j < i && rows@[j].date == rows@[i as int].date && #[trigger] rows@[j].asset
                    == rows@[i as int].asset) by {
                if exists|j: int|
                    0 <= j < i && rows@[j].date == rows@[i as int].date && #[trigger] rows@[j].asset
                        == rows@[i as int].asset {
                    let j = choose|j: int|
                        0 <= j < i && rows@[j].date == rows@[i as int].date && #[trigger] rows@[j].asset
                            == rows@[i as int].asset;
                    assert(all_keys@.contains(key));
                }
            }
            assert(row_issue(rows@, i as int) is None);
        }
        let ghost old_all = all_keys@;
        insert_key(&mut all_keys, key);
        let dp: usize = date_position(&dates, row.date);
        let ghost old_dates = dates@;
        if dp < dates.len() && dates[dp] == row.date {
            proof {
                assert(dates@[dp as int] == row.date);
                assert forall|d: i64| dates@.contains(d) <==> (old_dates.contains(d) || d == row.date) by {}
            }
        } else {
            dates.insert(dp, row.date);
            proof {
                assert forall|a: int, b: int| 0 <= a < b < dates@.len() implies dates@[a] < dates@[b] by {
                    assert(dates@ == old_dates.insert(dp as int, row.date));
                    if a < dp && b == dp {
                    } else if a < dp && b > dp {
                        assert(dates@[b] == old_dates[b - 1]);
                    } else if a == dp && b > dp {
                        assert(dates@[b] == old_dates[b - 1]);
                    } else if a > dp {
                        assert(dates@[a] == old_dates[a - 1] && dates@[b] == old_dates[b - 1]);
                    }
                }
                assert forall|d: i64| dates@.contains(d) <==> (old_dates.contains(d) || d == row.date) by {
                    if dates@.contains(d) {
                        let k = choose|k: int| 0 <= k < dates@.len() && dates@[k] == d;
                        if k < dp {
                            assert(old_dates[k] == d);
                        } else if k > dp {
                            assert(old_dates[k - 1] == d);
                        }
                    }
                    if old_dates.contains(d) {
                        let k = choose|k: int| 0 <= k < old_dates.len() && old_dates[k] == d;
                        if k < dp {
                            assert(dates@[k] == d);
                        } else {
                            assert(dates@[k + 1] == d);
                        }
                    }
                    if d == row.date {
                        assert(dates@[dp as int] == d);
                    }
                }
            }
        }
        let ghost old_q = in_quantile@;
        if q == quantile {
            proof {
                if old_q.contains(key) {
                    let k = choose|k: int|
                        0 <= k < pre.len() && #[trigger] pre[k] == (TurnoverRow {
                            date: key.0,
                            asset: key.1,
                            quantile: Some(quantile),
                        });
                    assert(old_all.contains(key)) by {
                        assert(key == (rows@[k].date, rows@[k].asset));
                    }
                }
            }
            insert_key(&mut in_quantile, key);
        }
        proof {
            assert forall|d: i64| has_date(post, d) <==> (has_date(pre, d) || d == row.date) by {
                if has_date(post, d) {
                    let k = choose|k: int| 0 <= k < post.len() && #[trigger] post[k].date == d;
                    if k < i {
                        assert(pre[k].date == d);
                    }
                }
                if has_date(pre, d) {
                    let k = choose|k: int| 0 <= k < pre.len() && #[trigger] pre[k].date == d;
                    assert(post[k].date == d);
                }
                if d == row.date {
                    assert(post[i as int].date == d);
                }
            }
            assert forall|d: i64| dates@.contains(d) <==> has_date(post, d) by {
                assert(dates@.contains(d) <==> (old_dates.contains(d) || d == row.date));
                assert(old_dates.contains(d) <==> has_date(pre, d));
            }
            assert forall|x: (i64, u64)|
                #[trigger] all_keys@.contains(x) <==> exists|k: int|
                    0 <= k < i + 1 && x == (rows@[k].date, #[trigger] rows@[k].asset) by {
                if all_keys@.contains(x) && x != key {
                    assert(old_all.contains(x));
                }
                if x == key {
                    assert(x == (rows@[i as int].date, rows@[i as int].asset));
                }
                if exists|k: int| 0 <= k < i + 1 && x == (rows@[k].date, #[trigger] rows@[k].asset) {
                    let k = choose|k: int|
                        0 <= k < i + 1 && x == (rows@[k].date, #[trigger] rows@[k].asset);
                    if k < i {
                        assert(old_all.contains(x));
                    }
                }
            }
            assert forall|x: (i64, u64)|
                #[trigger] in_quantile@.contains(x) <==> member(post, x.0, x.1, quantile) by {
                let target = TurnoverRow { date: x.0, asset: x.1, quantile: Some(quantile) };
                if member(post, x.0, x.1, quantile) {
                    let k = choose|k: int| 0 <= k < post.len() && #[trigger] post[k] == target;
                    if k < i {
                        assert(pre[k] == target);
                        assert(old_q.contains(x));
                    } else {
                        assert(row == target);
                    }
                }
                if member(pre, x.0, x.1, quantile) {
                    let k = choose|k: int| 0 <= k < pre.len() && #[trigger] pre[k] == target;
                    assert(post[k] == target);
                }
                if in_quantile@.contains(x) && !old_q.contains(x) {
                    assert(x == key && q == quantile);
                    assert(post[i as int] == target);
                }
            }
        }
        i = i + 1;
    }
    let all_rows = Ghost(rows@);
    proof {
        assert(rows@.subrange(0, n as int) =~= rows@);
    }
    let m: usize = dates.len();
    let lag: u32 = period.count();
    let mut held_counts: Vec<u64> = Vec::new();
    let mut entered_counts: Vec<u64> = Vec::new();
    let mut z: usize = 0;
    while z < m
        invariant
            z <= m,
            held_counts@.len() == z,
            entered_counts@.len() == z,
            forall|k: int| 0 <= k < z ==> held_counts@[k] == 0 && entered_counts@[k] == 0,
        decreases m - z,
    {
        held_counts.push(0);
        entered_counts.push(0);
        z = z + 1;
    }
    let mut i: usize = 0;
    while i < n
        invariant
            n == rows@.len(),
            m == dates@.len(),
            lag == period.spec_count(),
            i <= n,
            dates_sorted(dates@),
            forall|d: i64| dates@.contains(d) <==> has_date(rows@, d),
            keys_sorted(in_quantile@),
            forall|x: (i64, u64)|
                #[trigger] in_quantile@.contains(x) <==> member(rows@, x.0, x.1, quantile),
            held_counts@.len() == m,
            entered_counts@.len() == m,
            forall|k: int|
                0 <= k < m ==> #[trigger] held_counts@[k] == held(
                    rows@.subrange(0, i as int),
                    dates@[k],
                    quantile,
                ),
            forall|k: int|
                0 <= k < m ==> #[trigger] entered_counts@[k] == (if k < lag {
                    0
                } else {
                    count_where(
                        rows@.subrange(0, i as int),
                        |r: TurnoverRow|
                            r.date == dates@[k] && r.quantile == Some(quantile) && !member(
                                rows@,
                                dates@[k - lag],
                                r.asset,
                                quantile,
                            ),
                    )
                }),
        decreases n - i,
    {
        let row: TurnoverRow = rows[i];
        let ghost pre = rows@.subrange(0, i as int);
        proof {
            assert forall|k: int| 0 <= k < m implies #[trigger] held_counts@[k] <= i by {
                lemma_count_le(pre, |r: TurnoverRow| r.date == dates@[k] && r.quantile == Some(quantile));
            }
        }
        let idx: usize = date_position(&dates, row.date);
        proof {
            assert(has_date(rows@, row.date)) by {
                assert(rows@[i as int].date == row.date);
            }
            assert(dates@.contains(row.date));
            let k = choose|k: int| 0 <= k < m && dates@[k] == row.date;
            if k > idx {
                assert(dates@[idx as int] < dates@[k]);
            }
            assert(k == idx);
        }
        let in_q: bool = row.quantile == Some(quantile);
        let mut newly: bool = false;
        if in_q && idx >= lag as usize {
            newly = !holds_key(&in_quantile, (dates[idx - lag as usize], row.asset));
        }
        proof {
            assert forall|k: int| 0 <= k < m implies #[trigger] dates@[k] == row.date <==> k == idx by {
                if k < idx {
                    assert(dates@[k] < dates@[idx as int]);
                } else if k > idx {
                    assert(dates@[idx as int] < dates@[k]);
                }
            }
        }
        if in_q {
            let h: u64 = held_counts[idx];
            proof {
                lemma_count_le(pre, |r: TurnoverRow| r.date == dates@[idx as int] && r.quantile == Some(quantile));
            }
            held_counts.set(idx, h + 1);
            if newly {
                let e: u64 = entered_counts[idx];
                proof {
                    lemma_count_le(
                        pre,
                        |r: TurnoverRow|
                            r.date == dates@[idx as int] && r.quantile == Some(quantile) && !member(
                                rows@,
                                dates@[idx - lag],
                                r.asset,
                                quantile,
                            ),
                    );
                }
                entered_counts.set(idx, e + 1);
            }
        }
        proof {
            assert forall|k: int| 0 <= k < m implies #[trigger] held_counts@[k] == held(
                rows@.subrange(0, i + 1),
                dates@[k],
                quantile,
            ) by {
                lemma_count_step(rows@, i as int, |r: TurnoverRow| r.date == dates@[k] && r.quantile == Some(quantile));
            }
            assert forall|k: int| 0 <= k < m implies #[trigger] entered_counts@[k] == (if k < lag {
                0
            } else {
                count_where(
                    rows@.subrange(0, i + 1),
                    |r: TurnoverRow|
                        r.date == dates@[k] && r.quantile == Some(quantile) && !member(
                            rows@,
                            dates@[k - lag],
                            r.asset,
                            quantile,
                        ),
                )
            }) by {
                if k >= lag {
                    lemma_count_step(
                        rows@,
                        i as int,
                        |r: TurnoverRow|
                            r.date == dates@[k] && r.quantile == Some(quantile) && !member(
                                rows@,
                                dates@[k - lag],
                                r.asset,
                                quantile,
                            ),
                    );
                    if k == idx && in_q {
                        assert(in_quantile@.contains((dates@[k - lag], row.asset)) == member(
                            rows@,
                            dates@[k - lag],
                            row.asset,
                            quantile,
                        ));
                    }
                }
            }
        }
        i = i + 1;
    }
    proof {
        assert(rows@.subrange(0, n as int) =~= rows@);
    }
    let mut out: Vec<TurnoverPoint> = Vec::new();
    let mut k: usize = 0;
    while k < m
        invariant
            m == dates@.len(),
            lag == period.spec_count(),
            k <= m,
            out@.len() == k,
            held_counts@.len() == m,
            entered_counts@.len() == m,
            forall|j: int| 0 <= j < m ==> #[trigger] held_counts@[j] == held(rows@, dates@[j], quantile),
            forall|j: int|
                0 <= j < m ==> #[trigger] entered_counts@[j] == (if j < lag {
                    0
                } else {
                    entered(rows@, dates@[j], dates@[j - lag], quantile)
                }),
            forall|j: int| 0 <= j < k ==> #[trigger] out@[j].date == dates@[j],
            forall|j: int|
                0 <= j < k ==> (#[trigger] out@[j]).counts == if j < lag || held(
                    rows@,
                    dates@[j],
                    quantile,
                ) == 0 {
                    None
                } else {
                    Some(
                        (
                            entered(rows@, dates@[j], dates@[j - lag], quantile) as u64,
                            held(rows@, dates@[j], quantile) as u64,
                        ),
                    )
                },
        decreases m - k,
    {
        let counts: Option<(u64, u64)> = if k < lag as usize || held_counts[k] == 0 {
            None
        } else {
            Some((entered_counts[k], held_counts[k]))
        };
        out.push(TurnoverPoint { date: dates[k], counts });
        k = k + 1;
    }
    proof {
        assert forall|d: i64| has_date(rows@, d) <==> exists|j: int|
            0 <= j < out@.len() && #[trigger] out@[j].date == d by {
            if has_date(rows@, d) {
                assert(dates@.contains(d));
                let j = choose|j: int| 0 <= j < m && dates@[j] == d;
                assert(out@[j].date == d);
            }
            if exists|j: int| 0 <= j < out@.len() && #[trigger] out@[j].date == d {
                let j = choose|j: int| 0 <= j < out@.len() && #[trigger] out@[j].date == d;
                assert(dates@[j] == d);
                assert(dates@.contains(d));
            }
        }
    }
    Ok(out)
}


proof fn lemma_count_where_weaker(
    rows: Seq<TurnoverRow>,
    p: spec_fn(TurnoverRow) -> bool,
    q: spec_fn(TurnoverRow) -> bool,
)
    requires
        forall|r: TurnoverRow| #[trigger] p(r) ==> q(r),
    ensures
        count_where(rows, p) <= count_where(rows, q),
    decreases rows.len(),
{
    if rows.len() > 0 {
        lemma_count_where_weaker(rows.drop_last(), p, q);
    }
}

/// The assets that entered a quantile are among those it holds: turnover is a fraction
/// between zero and one.
pub proof fn lemma_entered_le_held(rows: Seq<TurnoverRow>, date: i64, previous: i64, q: u32)
    ensures
        entered(rows, date, previous, q) <= held(rows, date, q),
{
    lemma_count_where_weaker(
        rows,
        |r: TurnoverRow| r.date == date && r.quantile == Some(q) && !member(rows, previous, r.asset, q),
        |r: TurnoverRow| r.date == date && r.quantile == Some(q),
    );
}

} // verus!
