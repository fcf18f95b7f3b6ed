use vstd::prelude::*;

use crate::calendar::Period;
use crate::error::FerricAlphaError;
use crate::text::{
    lemma_seq_lt_asymmetric, lemma_seq_lt_total, lemma_seq_lt_transitive, seq_lt, str_eq, str_less,
};

verus! {

/// One weight row: its date, its asset, and whether its weight is a finite number.
#[derive(Debug, Clone)]
pub struct WeightRow {
    pub date: i64,
    pub asset: String,
    pub weight_ok: bool,
}

/// The sessions positions are reported on, the dates trades happened on, and for each
/// session the trades whose sleeves are still held: `trades[lo..hi]`.
#[derive(Debug, Clone, PartialEq, Eq)]
pub struct PositionPlan {
    pub sessions: Vec<i64>,
    pub trades: Vec<i64>,
    pub active: Vec<(usize, usize)>,
}

pub open spec fn weight_error() -> FerricAlphaError {
    FerricAlphaError::InvalidInput {
        operation: "positions",
        reason: "weights must be finite and non-null",
    }
}

pub open spec fn cash_error() -> FerricAlphaError {
    FerricAlphaError::InvalidInput {
        operation: "positions",
        reason: "asset name cash is reserved for synthetic cash",
    }
}

/// The error weight row `k` raises, given that the rows before it raised none.
pub open spec fn weight_row_issue(rows: Seq<WeightRow>, k: int) -> Option<FerricAlphaError> {
    if !rows[k].weight_ok {
        Some(weight_error())
    } else if rows[k].asset@ == "cash"@ {
        Some(cash_error())
    } else if exists|j: int|
        0 <= j < k && rows[j].date == rows[k].date && #[trigger] rows[j].asset@ == rows[k].asset@ {
        Some(FerricAlphaError::DuplicateKey)
    } else {
        None
    }
}

/// Date-then-text order of weight keys.
pub open spec fn wkey_lt(a: (i64, Seq<char>), b: (i64, Seq<char>)) -> bool {
    a.0 < b.0 || (a.0 == b.0 && seq_lt(a.1, b.1))
}

pub open spec fn wkeys(v: Seq<(i64, String)>) -> Seq<(i64, Seq<char>)> {
    v.map_values(|x: (i64, String)| (x.0, x.1@))
}

pub open spec fn wkeys_sorted(v: Seq<(i64, Seq<char>)>) -> bool {
    forall|i: int, j: int| 0 <= i < j < v.len() ==> wkey_lt(v[i], v[j])
}

pub open spec fn increasing(s: Seq<i64>) -> bool {
    forall|i: int, j: int| 0 <= i < j < s.len() ==> s[i] < s[j]
}

proof fn lemma_wkey_trans(a: (i64, Seq<char>), b: (i64, Seq<char>), c: (i64, Seq<char>))
    requires
        wkey_lt(a, b),
        wkey_lt(b, c),
    ensures
        wkey_lt(a, c),
{
    if a.0 == b.0 && b.0 == c.0 {
        lemma_seq_lt_transitive(a.1, b.1, c.1);
    }
}

/// Where `(date, asset)` stands, or would stand, among sorted weight keys; and whether it is there.
fn wkey_find(keys: &Vec<(i64, String)>, date: i64, asset: &str) -> (r: (usize, bool))
    requires
        wkeys_sorted(wkeys(keys@)),
    ensures
        r.0 <= keys@.len(),
        forall|k: int| 0 <= k < r.0 ==> wkey_lt(wkeys(keys@)[k], (date, asset@)),
        forall|k: int| r.0 <= k < keys@.len() ==> !wkey_lt(wkeys(keys@)[k], (date, asset@)),
        r.1 == wkeys(keys@).contains((date, asset@)),
{
    let ghost ks = wkeys(keys@);
    let mut lo: usize = 0;
    let mut hi: usize = keys.len();
    while lo < hi
        invariant
            ks == wkeys(keys@),
            wkeys_sorted(ks),
            lo <= hi <= keys@.len(),
            forall|k: int| 0 <= k < lo ==> wkey_lt(ks[k], (date, asset@)),
            forall|k: int| hi <= k < keys@.len() ==> !wkey_lt(ks[k], (date, asset@)),
        decreases hi - lo,
    {
        let mid: usize = lo + (hi - lo) / 2;
        assert(ks[mid as int] == (keys@[mid as int].0, keys@[mid as int].1@));
        let less: bool = keys[mid].0 < date || (keys[mid].0 == date && str_less(
            keys[mid].1.as_str(),
            asset,
        ));
        if less {
            proof {
                assert forall|k: int| 0 <= k < mid + 1 implies wkey_lt(ks[k], (date, asset@)) by {
                    if k < mid {
                        lemma_wkey_trans(ks[k], ks[mid as int], (date, asset@));
                    }
                }
            }
            lo = mid + 1;
        } else {
            proof {
                assert forall|k: int| mid <= k < keys@.len() implies !wkey_lt(ks[k], (date, asset@)) by {
                    if k > mid && wkey_lt(ks[k], (date, asset@)) {
                        lemma_wkey_trans(ks[mid as int], ks[k], (date, asset@));
                    }
                }
            }
            hi = mid;
        }
    }
    let found: bool = lo < keys.len() && keys[lo].0 == date && str_eq(keys[lo].1.as_str(), asset);
    proof {
        if lo < keys@.len() {
            assert(ks[lo as int] == (keys@[lo as int].0, keys@[lo as int].1@));
        }
        if found {
            assert(ks[lo as int] == (date, asset@));
        } else if ks.contains((date, asset@)) {
            let k = choose|k: int| 0 <= k < ks.len() && ks[k] == (date, asset@);
            if k > lo {
                assert(wkey_lt(ks[lo as int], ks[k]));
                lemma_seq_lt_asymmetric(ks[lo as int].1, asset@);
            } else if k < lo {
                lemma_seq_lt_asymmetric(asset@, asset@);
            }
        }
    }
    (lo, found)
}

/// Checks weight rows in order: a finite weight, an asset other than the synthetic cash,
/// and a date/asset key of its own. The trade dates come back sorted and distinct.
pub fn validate_weight_rows(rows: &[WeightRow]) -> (r: Result<Vec<i64>, FerricAlphaError>)
    ensures
        r is Ok <==> forall|k: int| 0 <= k < rows@.len() ==> #[trigger] weight_row_issue(rows@, k) is None,
        r matches Err(e) ==> exists|k: int|
            0 <= k < rows@.len() && (forall|j: int|
                0 <= j < k ==> #[trigger] weight_row_issue(rows@, j) is None) && weight_row_issue(
                rows@,
                k,
            ) == Some(e),
        r matches Ok(dates) ==> increasing(dates@) && forall|d: i64|
            dates@.contains(d) <==> exists|k: int| 0 <= k < rows@.len() && #[trigger] rows@[k].date == d,
{
    let n: usize = rows.len();
    let mut keys: Vec<(i64, String)> = Vec::new();
    let mut dates: Vec<i64> = Vec::new();
    let mut i: usize = 0;
    while i < n
        invariant
            n == rows@.len(),
            i <= n,
            forall|k: int| 0 <= k < i ==> #[trigger] weight_row_issue(rows@, k) is None,
            wkeys_sorted(wkeys(keys@)),
            forall|x: (i64, Seq<char>)|
                #[trigger] wkeys(keys@).contains(x) <==> exists|k: int|
                    0 <= k < i && x == (rows@[k].date, #[trigger] rows@[k].asset@),
            increasing(dates@),
            forall|d: i64|
                dates@.contains(d) <==> exists|k: int| 0 <= k < i && #[trigger] rows@[k].date == d,
        decreases n - i,
    {
        let row = &rows[i];
        if !row.weight_ok {
            assert(weight_row_issue(rows@, i as int) == Some(weight_error()));
            return Err(
                FerricAlphaError::InvalidInput {
                    operation: "positions",
                    reason: "weights must be finite and non-null",
                },
            );
        }
        proof {
            reveal_strlit("cash");
        }
        if str_eq(row.asset.as_str(), "cash") {
            assert(weight_row_issue(rows@, i as int) == Some(cash_error()));
            return Err(
                FerricAlphaError::InvalidInput {
                    operation: "positions",
                    reason: "asset name cash is reserved for synthetic cash",
                },
            );
        }
        let (pos, found) = wkey_find(&keys, row.date, row.asset.as_str());
        let ghost ks = wkeys(keys@);
        if found {
            proof {
                let k = choose|k: int|
                    0 <= k < i && (row.date, row.asset@) == (rows@[k].date, #[trigger] rows@[k].asset@);
                assert(rows@[k].date == rows@[i as int].date && rows@[k].asset@ == rows@[i as int].asset@);
            }
            assert(weight_row_issue(rows@, i as int) == Some(FerricAlphaError::DuplicateKey));
            return Err(FerricAlphaError::DuplicateKey);
        }
        proof {
            assert(!exists|j: int|
                0 <= j < i && rows@[j].date == rows@[i as int].date && #[trigger] rows@[j].asset@
                    == rows@[i as int].asset@) by {
                if exists|j: int|
                    0 <= j < i && rows@[j].date == rows@[i as int].date && #[trigger] rows@[j].asset@
                        == rows@[i as int].asset@ {
                    let j = choose|j: int|
                        0 <= j < i && rows@[j].date == rows@[i as int].date && #[trigger] rows@[j].asset@
                            == rows@[i as int].asset@;
                    assert(ks.contains((row.date, row.asset@)));
                }
            }
            assert(weight_row_issue(rows@, i as int) is None);
        }
        let new_key: (i64, String) = (row.date, row.asset.clone());
        let ghost nk = (row.date, row.asset@);
        keys.insert(pos, new_key);
        proof {
            let after = wkeys(keys@);
            assert forall|k: int| 0 <= k < after.len() implies #[trigger] after[k] == (if k < pos {
                ks[k]
            } else if k == pos {
                nk
            } else {
                ks[k - 1]
            }) by {}
            if pos < ks.len() {
                assert(ks[pos as int] != nk);
                lemma_seq_lt_total(ks[pos as int].1, nk.1);
            }
            assert forall|a: int, b: int| 0 <= a < b < after.len() implies wkey_lt(after[a], after[b]) by {
                if a < pos && b == pos {
                } else if a < pos && b > pos {
                    assert(wkey_lt(ks[a], ks[b - 1]));
                } else if a == pos && b > pos {
                    if b - 1 > pos {
                        lemma_wkey_trans(nk, ks[pos as int], ks[b - 1]);
                    }
                } else if a > pos {
                    assert(wkey_lt(ks[a - 1], ks[b - 1]));
                } else {
                    assert(wkey_lt(ks[a], ks[b]));
                }
            }
            assert forall|x: (i64, Seq<char>)|
                #[trigger] after.contains(x) <==> exists|k: int|
                    0 <= k < i + 1 && x == (rows@[k].date, #[trigger] rows@[k].asset@) by {
                if after.contains(x) {
                    let k = choose|k: int| 0 <= k < after.len() && after[k] == x;
                    if k < pos {
                        assert(ks[k] == x);
                        assert(ks.contains(x));
                    } else if k > pos {
                        assert(ks[k - 1] == x);
                        assert(ks.contains(x));
                    } else {
                        assert(x == (rows@[i as int].date, rows@[i as int].asset@));
                    }
                }
                if exists|k: int| 0 <= k < i + 1 && x == (rows@[k].date, #[trigger] rows@[k].asset@) {
                    let k = choose|k: int| 0 <= k < i + 1 && x == (rows@[k].date, #[trigger] rows@[k].asset@);
                    if k < i {
                        assert(ks.contains(x));
                        let m = choose|m: int| 0 <= m < ks.len() && ks[m] == x;
                        if m < pos {
                            assert(after[m] == x);
                        } else {
                            assert(after[m + 1] == x);
                        }
                    } else {
                        assert(after[pos as int] == x);
                    }
                }
            }
        }
        let mut dp: usize = 0;
        while dp < dates.len() && dates[dp] < row.date
            invariant
                dp <= dates@.len(),
                forall|k: int| 0 <= k < dp ==> dates@[k] < row.date,
            decreases dates@.len() - dp,
        {
            dp = dp + 1;
        }
        let ghost old_dates = dates@;
        if !(dp < dates.len() && dates[dp] == row.date) {
            dates.insert(dp, row.date);
            proof {
                assert forall|k: int| 0 <= k < dates@.len() implies #[trigger] dates@[k] == (if k < dp {
                    old_dates[k]
                } else if k == dp {
                    row.date
                } else {
                    old_dates[k - 1]
                }) by {}
            }
        }
        proof {
            assert forall|d: i64| dates@.contains(d) <==> (old_dates.contains(d) || d == row.date) by {
                if dates@.contains(d) {
                    let k = choose|k: int| 0 <= k < dates@.len() && dates@[k] == d;
                    if dates@.len() != old_dates.len() {
                        if k < dp {
                            assert(old_dates[k] == d);
                        } else if k > dp {
                            assert(old_dates[k - 1] == d);
                        }
                    } else {
                        assert(old_dates[k] == d);
                    }
                }
                if old_dates.contains(d) {
                    let k = choose|k: int| 0 <= k < old_dates.len() && old_dates[k] == d;
                    if dates@.len() != old_dates.len() && k >= dp {
                        assert(dates@[k + 1] == d);
                    } else {
                        assert(dates@[k] == d);
                    }
                }
                if d == row.date {
                    if dates@.len() != old_dates.len() {
                        assert(dates@[dp as int] == d);
                    } else {
                        assert(old_dates[dp as int] == d);
                    }
                }
            }
            assert forall|a: int, b: int| 0 <= a < b < dates@.len() implies dates@[a] < dates@[b] by {
                if dates@.len() != old_dates.len() {
                    if a < dp && b == dp {
                    } else if a < dp && b > dp {
                        assert(old_dates[a] < old_dates[b - 1]);
                    } else if a == dp && b > dp {
                        if b - 1 > dp {
                            assert(old_dates[dp as int] < old_dates[b - 1]);
                        }
                        assert(old_dates[dp as int] >= row.date);
                        assert(old_dates[dp as int] != row.date);
                    } else if a > dp {
                        assert(old_dates[a - 1] < old_dates[b - 1]);
                    } else {
                        assert(old_dates[a] < old_dates[b]);
                    }
                }
            }
            assert forall|d: i64|
                dates@.contains(d) <==> exists|k: int| 0 <= k < i + 1 && #[trigger] rows@[k].date == d by {
                if d == row.date {
                    assert(rows@[i as int].date == d);
                }
                if dates@.contains(d) && d != row.date {
                    assert(old_dates.contains(d));
                    let k = choose|k: int| 0 <= k < i && #[trigger] rows@[k].date == d;
                    assert(rows@[k].date == d);
                }
                if exists|k: int| 0 <= k < i + 1 && #[trigger] rows@[k].date == d {
                    let k = choose|k: int| 0 <= k < i + 1 && #[trigger] rows@[k].date == d;
                    if k < i {
                        assert(old_dates.contains(d));
                    }
                }
            }
        }
        i = i + 1;
    }
    Ok(dates)
}


/// Sorts session dates; a date given twice is refused.
pub fn sort_sessions(values: &[i64]) -> (r: Result<Vec<i64>, FerricAlphaError>)
    ensures
        r is Ok <==> values@.no_duplicates(),
        r matches Err(e) ==> e == FerricAlphaError::DuplicateSession,
        r matches Ok(v) ==> increasing(v@) && v@.len() == values@.len() && forall|d: i64|
            v@.contains(d) <==> values@.contains(d),
{
    let n: usize = values.len();
    let mut out: Vec<i64> = Vec::new();
    let mut i: usize = 0;
    while i < n
        invariant
            n == values@.len(),
            i <= n,
            out@.len() == i,
            increasing(out@),
            values@.subrange(0, i as int).no_duplicates(),
            forall|d: i64| out@.contains(d) <==> values@.subrange(0, i as int).contains(d),
        decreases n - i,
    {
        let v: i64 = values[i];
        let mut j: usize = 0;
        while j < out.len() && out[j] < v
            invariant
                j <= out@.len(),
                forall|k: int| 0 <= k < j ==> out@[k] < v,
            decreases out@.len() - j,
        {
            j = j + 1;
        }
        let ghost pre = values@.subrange(0, i as int);
        let ghost post = values@.subrange(0, i + 1);
        proof {
            assert(post =~= pre.push(v));
        }
        if j < out.len() && out[j] == v {
            proof {
                assert(out@.contains(v));
                let k = choose|k: int| 0 <= k < pre.len() && pre[k] == v;
                assert(values@[k] == values@[i as int]);
            }
            return Err(FerricAlphaError::DuplicateSession);
        }
        let ghost before = out@;
        out.insert(j, v);
        proof {
            assert(!before.contains(v)) by {
                if before.contains(v) {
                    let k = choose|k: int| 0 <= k < before.len() && before[k] == v;
                    if k > j {
                        assert(before[j as int] < before[k]);
                    }
                }
            }
            assert forall|k: int| 0 <= k < out@.len() implies #[trigger] out@[k] == (if k < j {
                before[k]
            } else if k == j {
                v
            } else {
                before[k - 1]
            }) by {}
            assert forall|a: int, b: int| 0 <= a < b < out@.len() implies out@[a] < out@[b] by {
                if a < j && b > j {
                    assert(before[a] < before[b - 1]);
                } else if a == j && b > j {
                    assert(before[j as int] >= v);
                    if b - 1 > j {
                        assert(before[j as int] < before[b - 1]);
                    }
                } else if a > j {
                    assert(before[a - 1] < before[b - 1]);
                }
            }
            assert forall|d: i64| out@.contains(d) <==> post.contains(d) by {
                if out@.contains(d) {
                    let k = choose|k: int| 0 <= k < out@.len() && out@[k] == d;
                    if k < j {
                        assert(before.contains(d));
                    } else if k > j {
                        assert(before[k - 1] == d);
                        assert(before.contains(d));
                    }
                    if d != v {
                        assert(pre.contains(d));
                        let m = choose|m: int| 0 <= m < pre.len() && pre[m] == d;
                        assert(post[m] == d);
                    } else {
                        assert(post[i as int] == d);
                    }
                }
                if post.contains(d) {
                    let m = choose|m: int| 0 <= m < post.len() && post[m] == d;
                    if m < i {
                        assert(pre[m] == d);
                        assert(before.contains(d));
                        let k = choose|k: int| 0 <= k < before.len() && before[k] == d;
                        if k < j {
                            assert(out@[k] == d);
                        } else {
                            assert(out@[k + 1] == d);
                        }
                    } else {
                        assert(out@[j as int] == d);
                    }
                }
            }
            assert forall|a: int, b: int| 0 <= a < b < post.len() implies post[a] != post[b] by {
                if b == i {
                    assert(pre.contains(post[a]));
                } else {
                    assert(pre[a] == post[a] && pre[b] == post[b]);
                }
            }
        }
        i = i + 1;
    }
    proof {
        assert(values@.subrange(0, n as int) =~= values@);
    }
    Ok(out)
}

/// The trade at session `start` is still held at session `i` for a period of `count` sessions.
pub open spec fn sleeve_active(start: int, i: int, count: int) -> bool {
    start <= i < start + count
}

/// The position of each trade date among the sessions.
pub open spec fn trade_session(sessions: Seq<i64>, trade: i64) -> int {
    sessions.index_of(trade)
}

/// Lays out overlapping sleeves: the sessions to report (those given, or the trade dates),
/// and for each session the range of trades held on it, each trade held for `period`
/// sessions from its own. Every trade date must be a session.
pub fn plan_positions(trades: Vec<i64>, sessions: Option<Vec<i64>>, period: Period) -> (r: Result<
    PositionPlan,
    FerricAlphaError,
>)
    requires
        increasing(trades@),
    ensures
        match sessions {
            Some(given) => {
                &&& !given@.no_duplicates() ==> r == Err::<PositionPlan, FerricAlphaError>(
                    FerricAlphaError::DuplicateSession,
                )
                &&& given@.no_duplicates() && !(forall|k: int|
                    0 <= k < trades@.len() ==> given@.contains(#[trigger] trades@[k])) ==> r
                    == Err::<PositionPlan, FerricAlphaError>(
                    FerricAlphaError::InvalidInput {
                        operation: "positions",
                        reason: "every trade date must be present in sessions",
                    },
                )
                &&& given@.no_duplicates() && (forall|k: int|
                    0 <= k < trades@.len() ==> given@.contains(#[trigger] trades@[k])) ==> r is Ok
                &&& r matches Ok(plan) ==> plan.sessions@.len() == given@.len() && forall|d: i64|
                    plan.sessions@.contains(d) <==> given@.contains(d)
            },
            None => r matches Ok(plan) && plan.sessions@ == trades@,
        },
        r matches Ok(plan) ==> {
            &&& increasing(plan.sessions@)
            &&& plan.trades@ == trades@
            &&& plan.active@.len() == plan.sessions@.len()
            &&& forall|k: int|
                0 <= k < trades@.len() ==> plan.sessions@.contains(#[trigger] trades@[k])
            &&& forall|i: int, k: int|
                0 <= i < plan.active@.len() && 0 <= k < trades@.len() ==> ((plan.active@[i].0 <= k
                    < plan.active@[i].1) <==> sleeve_active(
                    trade_session(plan.sessions@, #[trigger] trades@[k]),
                    i,
                    period.spec_count() as int,
                )) && #[trigger] plan.active@[i].1 <= trades@.len()
            &&& forall|i: int, k: int, s: int|
                #![trigger plan.active@[i], trades@[k], plan.sessions@[s]]
                0 <= i < plan.active@.len() && 0 <= k < trades@.len() && 0 <= s
                    < plan.sessions@.len() && plan.sessions@[s] == trades@[k] ==> ((plan.active@[i].0
                    <= k < plan.active@[i].1) <==> (s <= i && i < s + period.spec_count()))
        },
{
    let ghost given_view: Option<Seq<i64>> = match &sessions {
        Some(g) => Some(g@),
        None => None,
    };
    let ghost sessions_in = sessions;
    let ordered: Vec<i64> = match sessions {
        None => {
            let mut copy: Vec<i64> = Vec::new();
            let mut i: usize = 0;
            while i < trades.len()
                invariant
                    i <= trades@.len(),
                    copy@ == trades@.subrange(0, i as int),
                decreases trades@.len() - i,
            {
                copy.push(trades[i]);
                i = i + 1;
            }
            assert(copy@ =~= trades@);
            copy
        },
        Some(given) => sort_sessions(given.as_slice())?,
    };
    let m: usize = ordered.len();
    let t: usize = trades.len();
    let mut starts: Vec<usize> = Vec::new();
    let mut k: usize = 0;
    while k < t
        invariant
            m == ordered@.len(),
            t == trades@.len(),
            increasing(ordered@),
            increasing(trades@),
            match given_view {
                Some(g) => g.no_duplicates() && g.len() == ordered@.len() && forall|d: i64|
                    ordered@.contains(d) <==> g.contains(d),
                None => ordered@ == trades@,
            },
            given_view == (match sessions_in {
                Some(g) => Some(g@),
                None => None::<Seq<i64>>,
            }),
            sessions_in == sessions,
            k <= t,
            starts@.len() == k,
            forall|a: int| 0 <= a < k ==> #[trigger] starts@[a] < m && ordered@[starts@[a] as int] == trades@[a],
        decreases t - k,
    {
        let d: i64 = trades[k];
        let mut lo: usize = 0;
        let mut hi: usize = m;
        while lo < hi
            invariant
                m == ordered@.len(),
                increasing(ordered@),
                lo <= hi <= m,
                forall|a: int| 0 <= a < lo ==> ordered@[a] < d,
                forall|a: int| hi <= a < m ==> ordered@[a] >= d,
            decreases hi - lo,
        {
            let mid: usize = lo + (hi - lo) / 2;
            if ordered[mid] < d {
                lo = mid + 1;
            } else {
                hi = mid;
            }
        }
        if !(lo < m && ordered[lo] == d) {
            proof {
                if ordered@.contains(d) {
                    let a = choose|a: int| 0 <= a < m && ordered@[a] == d;
                    if a > lo {
                        assert(ordered@[lo as int] < ordered@[a]);
                    }
                }
                assert(!ordered@.contains(trades@[k as int]));
                if given_view is None {
                    assert(ordered@[k as int] == trades@[k as int]);
                } else {
                    let g = sessions_in->0;
                    assert(g@.no_duplicates());
                    assert(!g@.contains(trades@[k as int]));
                }
            }
            return Err(
                FerricAlphaError::InvalidInput {
                    operation: "positions",
                    reason: "every trade date must be present in sessions",
                },
            );
        }
        starts.push(lo);
        k = k + 1;
    }
    proof {
        assert forall|a: int| 0 <= a < t implies trade_session(ordered@, #[trigger] trades@[a])
            == starts@[a] && ordered@.contains(trades@[a]) by {
            assert(ordered@[starts@[a] as int] == trades@[a]);
            assert(ordered@.contains(trades@[a]));
            let j = ordered@.index_of(trades@[a]);
            if j < starts@[a] {
                assert(ordered@[j] < ordered@[starts@[a] as int]);
            } else if j > starts@[a] {
                assert(ordered@[starts@[a] as int] < ordered@[j]);
            }
        }
        assert forall|a: int, b: int| 0 <= a < b < t implies starts@[a] < starts@[b] by {
            assert(trades@[a] < trades@[b]);
            if starts@[a] >= starts@[b] {
                if starts@[a] > starts@[b] {
                    assert(ordered@[starts@[b] as int] < ordered@[starts@[a] as int]);
                }
            }
        }
    }
    let count: u32 = period.count();
    let mut active: Vec<(usize, usize)> = Vec::new();
    let mut lo: usize = 0;
    let mut hi: usize = 0;
    let mut i: usize = 0;
    while i < m
        invariant
            m == ordered@.len(),
            t == trades@.len(),
            starts@.len() == t,
            count == period.spec_count(),
            count > 0,
            forall|a: int, b: int| 0 <= a < b < t ==> starts@[a] < starts@[b],
            forall|a: int| 0 <= a < t ==> trade_session(ordered@, #[trigger] trades@[a]) == starts@[a],
            i <= m,
            lo <= hi <= t,
            active@.len() == i,
            forall|a: int| 0 <= a < hi ==> starts@[a] < i,
            forall|a: int| hi <= a < t ==> starts@[a] >= i,
            forall|a: int| 0 <= a < lo ==> starts@[a] + count < i + 1,
            forall|a: int| lo <= a < t ==> starts@[a] + count >= i,
            forall|j: int| 0 <= j < i ==> (#[trigger] active@[j]).1 <= t,
            forall|j: int, a: int|
                #![trigger active@[j], trades@[a]]
                0 <= j < i && 0 <= a < t ==> ((active@[j].0 <= a < active@[j].1) <==> sleeve_active(
                    trade_session(ordered@, trades@[a]),
                    j,
                    count as int,
                )),
        decreases m - i,
    {
        while hi < t && starts[hi] <= i
            invariant
                t == starts@.len(),
                lo <= hi <= t,
                forall|a: int, b: int| 0 <= a < b < t ==> starts@[a] < starts@[b],
                forall|a: int| 0 <= a < hi ==> starts@[a] <= i,
                forall|a: int| hi <= a < t ==> starts@[a] >= i,
            decreases t - hi,
        {
            hi = hi + 1;
        }
        proof {
            assert forall|a: int| hi <= a < t implies starts@[a] > i by {
                if hi < t {
                    if a > hi {
                        assert(starts@[hi as int] < starts@[a]);
                    }
                }
            }
        }
        while lo < hi && (starts[lo] as u128) + (count as u128) <= (i as u128)
            invariant
                t == starts@.len(),
                lo <= hi <= t,
                forall|a: int, b: int| 0 <= a < b < t ==> starts@[a] < starts@[b],
                forall|a: int| 0 <= a < lo ==> starts@[a] + count <= i,
                forall|a: int| lo <= a < t ==> starts@[a] + count >= i,
            decreases hi - lo,
        {
            lo = lo + 1;
        }
        proof {
            assert forall|a: int| lo <= a < t implies starts@[a] + count > i by {
                if lo < hi {
                    if a > lo {
                        assert(starts@[lo as int] < starts@[a]);
                    }
                } else {
                    assert(starts@[a] > i);
                }
            }
        }
        let ghost before = active@;
        active.push((lo, hi));
        proof {
            assert forall|j: int| 0 <= j < i + 1 implies (#[trigger] active@[j]).1 <= t by {
                if j < i {
                    assert(active@[j] == before[j]);
                }
            }
            assert forall|j: int, a: int|
                #![trigger active@[j], trades@[a]]
                0 <= j < i + 1 && 0 <= a < t implies ((active@[j].0 <= a < active@[j].1) <==> sleeve_active(
                    trade_session(ordered@, trades@[a]),
                    j,
                    count as int,
                )) by {
                if j < i {
                    assert(active@[j] == before[j]);
                } else {
                    assert(active@[j] == (lo, hi));
                    assert(trade_session(ordered@, trades@[a]) == starts@[a]);
                    if a < hi {
                        assert(starts@[a] <= i);
                    } else {
                        assert(starts@[a] > i);
                    }
                    if a < lo {
                        assert(starts@[a] + count <= i);
                    } else {
                        assert(starts@[a] + count > i);
                    }
                }
            }
        }
        i = i + 1;
    }
    proof {
        assert forall|a: int| 0 <= a < t implies ordered@.contains(#[trigger] trades@[a]) by {
            assert(ordered@[starts@[a] as int] == trades@[a]);
        }
        assert forall|j: int, a: int, s: int|
            #![trigger active@[j], trades@[a], ordered@[s]]
            0 <= j < active@.len() && 0 <= a < t && 0 <= s < m && ordered@[s] == trades@[a] implies ((
            active@[j].0 <= a < active@[j].1) <==> (s <= j && j < s + period.spec_count())) by {
            assert(trade_session(ordered@, trades@[a]) == starts@[a]);
            assert(ordered@[starts@[a] as int] == trades@[a]);
            if s < starts@[a] {
                assert(ordered@[s] < ordered@[starts@[a] as int]);
            } else if s > starts@[a] {
                assert(ordered@[starts@[a] as int] < ordered@[s]);
            }
            assert(s == starts@[a]);
        }
    }
    Ok(PositionPlan { sessions: ordered, trades, active })
}

/// How many sessions of `active` hold trade `k`.
pub open spec fn held_count(active: Seq<(usize, usize)>, k: int) -> nat
    decreases active.len(),
{
    if active.len() == 0 {
        0
    } else {
        held_count(active.drop_last(), k) + if active.last().0 <= k < active.last().1 {
            1nat
        } else {
            0nat
        }
    }
}

/// A trade made on session `s` is held on exactly `min(count, sessions - s)` sessions of a
/// plan whose ranges hold each trade for `count` sessions from its own (as `plan_positions`
/// ensures); with a one-session period it is held on its own session alone.
pub proof fn lemma_trade_held_sessions(
    active: Seq<(usize, usize)>,
    sessions: Seq<i64>,
    trades: Seq<i64>,
    count: int,
    k: int,
    s: int,
)
    requires
        active.len() == sessions.len(),
        count > 0,
        0 <= k < trades.len(),
        0 <= s < sessions.len(),
        sessions[s] == trades[k],
        forall|i: int, k2: int, s2: int|
            #![trigger active[i], trades[k2], sessions[s2]]
            0 <= i < active.len() && 0 <= k2 < trades.len() && 0 <= s2 < sessions.len()
                && sessions[s2] == trades[k2] ==> ((active[i].0 <= k2 < active[i].1) <==> (s2 <= i
                && i < s2 + count)),
    ensures
        held_count(active, k) == if count < sessions.len() - s {
            count
        } else {
            sessions.len() - s
        },
        count == 1 ==> forall|i: int|
            0 <= i < active.len() ==> ((#[trigger] active[i].0 <= k < active[i].1) <==> i == s),
{
    lemma_held_prefix(active, sessions, trades, count, k, s, active.len() as int);
    assert(active.subrange(0, active.len() as int) =~= active);
    assert forall|i: int| 0 <= i < active.len() implies ((#[trigger] active[i].0 <= k < active[i].1)
        <==> (s <= i && i < s + count)) by {
        assert(sessions[s] == trades[k]);
    }
}

proof fn lemma_held_prefix(
    active: Seq<(usize, usize)>,
    sessions: Seq<i64>,
    trades: Seq<i64>,
    count: int,
    k: int,
    s: int,
    n: int,
)
    requires
        0 <= n <= active.len(),
        active.len() == sessions.len(),
        count > 0,
        0 <= k < trades.len(),
        0 <= s < sessions.len(),
        sessions[s] == trades[k],
        forall|i: int, k2: int, s2: int|
            #![trigger active[i], trades[k2], sessions[s2]]
            0 <= i < active.len() && 0 <= k2 < trades.len() && 0 <= s2 < sessions.len()
                && sessions[s2] == trades[k2] ==> ((active[i].0 <= k2 < active[i].1) <==> (s2 <= i
                && i < s2 + count)),
    ensures
        held_count(active.subrange(0, n), k) == if n <= s {
            0
        } else if n < s + count {
            n - s
        } else {
            count
        },
    decreases n,
{
    if n > 0 {
        let pre = active.subrange(0, n);
        assert(pre.drop_last() =~= active.subrange(0, n - 1));
        lemma_held_prefix(active, sessions, trades, count, k, s, n - 1);
        assert(pre.last() == active[n - 1]);
        assert(sessions[s] == trades[k]);
        assert((active[n - 1].0 <= k < active[n - 1].1) <==> (s <= n - 1 && n - 1 < s + count));
    }
}

} // verus!
