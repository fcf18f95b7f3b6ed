use vstd::prelude::*;

use crate::calendar::strictly_increasing;
use crate::grouping::{key_equal, key_lt, key_position, keys_sorted, CellKey};
use crate::performance::events::EventRow;
use crate::sorted::{insert_sorted_u64, u64s_sorted};

verus! {

/// The assets on hand on each event date, or on each event date within each group.
pub struct Universes {
    pub keys: Vec<CellKey>,
    pub assets: Vec<Vec<u64>>,
}

/// The universe a row belongs to: its date, and with `by_group` its group; a row without a
/// group belongs to none when universes are split by group.
pub open spec fn universe_key(row: EventRow, by_group: bool) -> Option<CellKey> {
    if !by_group {
        Some((row.date, 0i64, 0i64, 0i64))
    } else {
        match row.group {
            Some(g) => if g <= i64::MAX as u64 {
                Some((row.date, g as i64, 0i64, 0i64))
            } else {
                None
            },
            None => None,
        }
    }
}

/// Some row on an event date belongs to universe `k` and holds asset `a`.
pub open spec fn in_universe(
    rows: Seq<EventRow>,
    event_dates: Seq<i64>,
    by_group: bool,
    k: CellKey,
    a: u64,
) -> bool {
    exists|i: int|
        0 <= i < rows.len() && event_dates.contains(rows[i].date) && #[trigger] universe_key(
            rows[i],
            by_group,
        ) == Some(k) && rows[i].asset == a
}

/// What a universe lookup gives: universes in increasing key order, each with its assets
/// in increasing order, holding exactly the assets of the rows on event dates that belong
/// to it.
pub open spec fn universes_of(
    r: Universes,
    rows: Seq<EventRow>,
    event_dates: Seq<i64>,
    by_group: bool,
) -> bool {
    &&& keys_sorted(r.keys@)
    &&& r.assets@.len() == r.keys@.len()
    &&& forall|g: int|
        0 <= g < r.keys@.len() ==> u64s_sorted(#[trigger] r.assets@[g]@) && r.assets@[g]@.len() > 0
    &&& forall|g: int, a: u64|
        0 <= g < r.keys@.len() ==> (#[trigger] r.assets@[g]@.contains(a) <==> in_universe(
            rows,
            event_dates,
            by_group,
            r.keys@[g],
            a,
        ))
    &&& forall|i: int|
        0 <= i < rows.len() && event_dates.contains(rows[i].date) && universe_key(
            rows[i],
            by_group,
        ) is Some ==> r.keys@.contains(#[trigger] universe_key(rows[i], by_group)->Some_0)
}

fn date_in(dates: &[i64], date: i64) -> (r: bool)
    requires
        strictly_increasing(dates@),
    ensures
        r == dates@.contains(date),
{
    let mut lo: usize = 0;
    let mut hi: usize = dates.len();
    while lo < hi
        invariant
            hi <= dates@.len(),
            lo <= hi,
            strictly_increasing(dates@),
            forall|k: int| 0 <= k < lo ==> dates@[k] < date,
            forall|k: int| hi <= k < dates@.len() ==> dates@[k] > date,
        decreases hi - lo,
    {
        let mid: usize = lo + (hi - lo) / 2;
        if dates[mid] == date {
            return true;
        } else if dates[mid] < date {
            lo = mid + 1;
        } else {
            hi = mid;
        }
    }
    proof {
        if dates@.contains(date) {
            let k = choose|k: int| 0 <= k < dates@.len() && dates@[k] == date;
        }
    }
    false
}

fn universes(rows: &[EventRow], event_dates: &[i64], by_group: bool) -> (r: Universes)
    requires
        strictly_increasing(event_dates@),
    ensures
        universes_of(r, rows@, event_dates@, by_group),
{
    let n: usize = rows.len();
    let mut keys: Vec<CellKey> = Vec::new();
    let mut assets: Vec<Vec<u64>> = Vec::new();
    let mut i: usize = 0;
    while i < n
        invariant
            n == rows@.len(),
            i <= n,
            strictly_increasing(event_dates@),
            universes_of(
                (Universes { keys, assets }),
                rows@.subrange(0, i as int),
                event_dates@,
                by_group,
            ),
        decreases n - i,
    {
        let row = rows[i];
        let ghost pre = rows@.subrange(0, i as int);
        let ghost post = rows@.subrange(0, i + 1);
        assert forall|j: int| 0 <= j < i implies #[trigger] post[j] == pre[j] by {}
        assert(post[i as int] == row);
        let ghost before_keys = keys@;
        let ghost before_assets = assets@;
        let selected: bool = date_in(event_dates, row.date);
        let key: Option<CellKey> = if !selected {
            None
        } else if !by_group {
            Some((row.date, 0i64, 0i64, 0i64))
        } else {
            match row.group {
                Some(g) => if g <= 9223372036854775807u64 {
                    Some((row.date, g as i64, 0i64, 0i64))
                } else {
                    None
                },
                None => None,
            }
        };
        proof {
            assert forall|k: CellKey, a: u64| in_universe(pre, event_dates@, by_group, k, a)
                implies in_universe(post, event_dates@, by_group, k, a) by {
                let j = choose|j: int|
                    0 <= j < pre.len() && event_dates@.contains(pre[j].date) && #[trigger] universe_key(
                        pre[j],
                        by_group,
                    ) == Some(k) && pre[j].asset == a;
                assert(post[j] == pre[j]);
            }
            assert forall|k: CellKey, a: u64| in_universe(post, event_dates@, by_group, k, a)
                implies in_universe(pre, event_dates@, by_group, k, a) || (key == Some(k)
                && row.asset == a) by {
                let j = choose|j: int|
                    0 <= j < post.len() && event_dates@.contains(post[j].date) && #[trigger] universe_key(
                        post[j],
                        by_group,
                    ) == Some(k) && post[j].asset == a;
                if j < i {
                    assert(pre[j] == post[j]);
                }
            }
        }
        match key {
            None => {
                proof {
                    assert forall|k: CellKey, a: u64| in_universe(post, event_dates@, by_group, k, a)
                        == in_universe(pre, event_dates@, by_group, k, a) by {}
                    assert forall|j: int|
                        0 <= j < post.len() && event_dates@.contains(post[j].date) && universe_key(
                            post[j],
                            by_group,
                        ) is Some implies keys@.contains(
                        #[trigger] universe_key(post[j], by_group)->Some_0,
                    ) by {
                        assert(j < i);
                        assert(pre[j] == post[j]);
                    }
                }
            },
            Some(k) => {
                let p: usize = key_position(&keys, k);
                if p < keys.len() && key_equal(keys[p], k) {
                    assert(u64s_sorted(assets@[p as int]@));
                    insert_sorted_u64(&mut assets[p], row.asset);
                    proof {
                        assert forall|g: int| 0 <= g < keys@.len() && g != p implies #[trigger] assets@[g]
                            == before_assets[g] by {}
                        assert forall|g: int, a: u64|
                            0 <= g < keys@.len() implies (#[trigger] assets@[g]@.contains(a)
                            <==> in_universe(post, event_dates@, by_group, keys@[g], a)) by {
                            if g != p {
                                assert(keys@[g] != k) by {
                                    if g < p {
                                        assert(key_lt(keys@[g], keys@[p as int]));
                                    } else {
                                        assert(key_lt(keys@[p as int], keys@[g]));
                                    }
                                }
                            } else {
                                if a == row.asset {
                                    assert(universe_key(post[i as int], by_group) == Some(k));
                                }
                            }
                        }
                        assert forall|j: int|
                            0 <= j < post.len() && event_dates@.contains(post[j].date)
                                && universe_key(post[j], by_group) is Some implies keys@.contains(
                            #[trigger] universe_key(post[j], by_group)->Some_0,
                        ) by {
                            if j < i {
                                assert(pre[j] == post[j]);
                            } else {
                                assert(keys@[p as int] == k);
                            }
                        }
                        assert(assets@[p as int]@.contains(row.asset));
                    }
                } else {
                    proof {
                        assert forall|a: u64| !in_universe(pre, event_dates@, by_group, k, a) by {
                            if in_universe(pre, event_dates@, by_group, k, a) {
                                let j = choose|j: int|
                                    0 <= j < pre.len() && event_dates@.contains(pre[j].date)
                                        && #[trigger] universe_key(pre[j], by_group) == Some(k)
                                        && pre[j].asset == a;
                                assert(keys@.contains(universe_key(pre[j], by_group)->Some_0));
                                let g = choose|g: int| 0 <= g < keys@.len() && keys@[g] == k;
                                if g > p {
                                    assert(key_lt(keys@[p as int], keys@[g]));
                                }
                            }
                        }
                    }
                    keys.insert(p, k);
                    let mut fresh: Vec<u64> = Vec::new();
                    fresh.push(row.asset);
                    assets.insert(p, fresh);
                    proof {
                        assert forall|g: int| 0 <= g < keys@.len() implies #[trigger] keys@[g] == (
                        if g < p {
                            before_keys[g]
                        } else if g == p {
                            k
                        } else {
                            before_keys[g - 1]
                        }) by {}
                        assert forall|g: int| 0 <= g < assets@.len() implies #[trigger] assets@[g] == (
                        if g < p {
                            before_assets[g]
                        } else if g == p {
                            fresh
                        } else {
                            before_assets[g - 1]
                        }) by {}
                        assert forall|a: int, b: int| 0 <= a < b < keys@.len() implies key_lt(
                            #[trigger] keys@[a],
                            #[trigger] keys@[b],
                        ) by {
                            if a < p && b == p {
                                assert(key_lt(before_keys[a], k));
                            } else if a == p && b > p {
                                assert(!key_lt(before_keys[b - 1], k));
                                assert(before_keys[b - 1] != k);
                            } else if a < p && b > p {
                                assert(key_lt(before_keys[a], before_keys[b - 1]));
                            } else if a > p {
                                assert(key_lt(before_keys[a - 1], before_keys[b - 1]));
                            }
                        }
                        assert forall|g: int| 0 <= g < keys@.len() implies u64s_sorted(
                            #[trigger] assets@[g]@,
                        ) && assets@[g]@.len() > 0 by {
                            if g < p {
                                assert(assets@[g] == before_assets[g]);
                            } else if g > p {
                                assert(assets@[g] == before_assets[g - 1]);
                            }
                        }
                        assert forall|g: int, a: u64|
                            0 <= g < keys@.len() implies (#[trigger] assets@[g]@.contains(a)
                            <==> in_universe(post, event_dates@, by_group, keys@[g], a)) by {
                            if g == p {
                                if a == row.asset {
                                    assert(fresh@[0] == a);
                                    assert(universe_key(post[i as int], by_group) == Some(k));
                                }
                                if assets@[g]@.contains(a) {
                                    assert(a == row.asset);
                                }
                            } else {
                                let b = if g < p {
                                    g
                                } else {
                                    g - 1
                                };
                                assert(before_keys[b] != k) by {
                                    if b < p {
                                        assert(key_lt(before_keys[b], k));
                                    } else {
                                        assert(!key_lt(before_keys[b], k));
                                        if before_keys[b] == k {
                                            assert(before_assets[b]@.len() > 0);
                                            let a0 = before_assets[b]@[0];
                                            assert(before_assets[b]@.contains(a0));
                                        }
                                    }
                                }
                                assert(assets@[g] == before_assets[b]);
                                assert(keys@[g] == before_keys[b]);
                            }
                        }
                        assert forall|j: int|
                            0 <= j < post.len() && event_dates@.contains(post[j].date)
                                && universe_key(post[j], by_group) is Some implies keys@.contains(
                            #[trigger] universe_key(post[j], by_group)->Some_0,
                        ) by {
                            if j < i {
                                assert(pre[j] == post[j]);
                                let c = universe_key(pre[j], by_group)->Some_0;
                                let g = choose|g: int| 0 <= g < before_keys.len() && before_keys[g] == c;
                                if g < p {
                                    assert(keys@[g] == c);
                                } else {
                                    assert(keys@[g + 1] == c);
                                }
                            } else {
                                assert(keys@[p as int] == k);
                            }
                        }
                    }
                }
            },
        }
        i = i + 1;
    }
    proof {
        assert(rows@.subrange(0, n as int) =~= rows@);
    }
    Universes { keys, assets }
}

/// The assets of the rows on each event date, by date; each date's assets once, in
/// increasing order.
pub fn universe_by_date(rows: &[EventRow], event_dates: &[i64]) -> (r: Universes)
    requires
        strictly_increasing(event_dates@),
    ensures
        universes_of(r, rows@, event_dates@, false),
{
    universes(rows, event_dates, false)
}

/// The assets of the rows on each event date within each group, by date and then group;
/// rows without a group are left out.
pub fn universe_by_date_group(rows: &[EventRow], event_dates: &[i64]) -> (r: Universes)
    requires
        strictly_increasing(event_dates@),
    ensures
        universes_of(r, rows@, event_dates@, true),
{
    universes(rows, event_dates, true)
}

} // verus!
