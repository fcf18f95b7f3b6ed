use vstd::prelude::*;

use crate::grouping::{key_equal, key_lt, key_position, keys_sorted, CellKey};
use crate::performance::events::{reaches, Event, PartitionKey};
use crate::performance::universe::Universes;

verus! {

/// The return of `asset` at session `t` is imputed: the asset has no return path, or its
/// path has no return there.
pub open spec fn imputed_at(missing: Seq<Vec<bool>>, asset: u64, t: int) -> bool {
    !(asset < missing.len() && 0 <= t < missing[asset as int]@.len()) || missing[asset as int]@[t]
}

/// How many of `assets` have an imputed return at session `t`.
pub open spec fn imputed_count(assets: Seq<u64>, missing: Seq<Vec<bool>>, t: int) -> nat
    decreases assets.len(),
{
    if assets.len() == 0 {
        0
    } else {
        imputed_count(assets.drop_last(), missing, t) + if imputed_at(missing, assets.last(), t) {
            1nat
        } else {
            0nat
        }
    }
}

/// The assets of the universe with this key, or none when there is no such universe.
pub open spec fn universe_assets(u: Universes, key: CellKey) -> Seq<u64> {
    if exists|g: int| 0 <= g < u.keys@.len() && u.keys@[g] == key {
        u.assets@[choose|g: int| 0 <= g < u.keys@.len() && u.keys@[g] == key]@
    } else {
        Seq::empty()
    }
}

/// The universe of an event's date and group, when it has a group.
pub open spec fn group_universe_key(e: Event) -> Option<CellKey> {
    match e.group {
        Some(g) => if g <= i64::MAX as u64 {
            Some((e.date, g as i64, 0i64, 0i64))
        } else {
            None
        },
        None => None,
    }
}

/// The imputed returns that one event's path reads at `offset`: its own, and with
/// `group_adjust` those of its group's universe.
pub open spec fn event_term(
    e: Event,
    missing: Seq<Vec<bool>>,
    by_date_group: Universes,
    group_adjust: bool,
    offset: int,
) -> nat {
    let t = e.session_index + offset;
    (if imputed_at(missing, e.asset, t) {
        1nat
    } else {
        0nat
    }) + if group_adjust && group_universe_key(e) is Some {
        imputed_count(universe_assets(by_date_group, group_universe_key(e)->Some_0), missing, t)
    } else {
        0nat
    }
}

/// The imputed returns read at `offset` by the events whose window reaches it.
pub open spec fn events_imputed(
    events: Seq<Event>,
    missing: Seq<Vec<bool>>,
    by_date_group: Universes,
    group_adjust: bool,
    offset: int,
    session_count: int,
) -> nat
    decreases events.len(),
{
    if events.len() == 0 {
        0
    } else {
        events_imputed(
            events.drop_last(),
            missing,
            by_date_group,
            group_adjust,
            offset,
            session_count,
        ) + if reaches(events.last().session_index, offset, session_count) {
            event_term(events.last(), missing, by_date_group, group_adjust, offset)
        } else {
            0nat
        }
    }
}

/// The imputed returns read at `offset` by the date universes of the partitions whose
/// window reaches it.
pub open spec fn partitions_imputed(
    keys: Seq<PartitionKey>,
    starts: Seq<usize>,
    missing: Seq<Vec<bool>>,
    by_date: Universes,
    offset: int,
    session_count: int,
) -> nat
    decreases keys.len(),
{
    if keys.len() == 0 || starts.len() == 0 {
        0
    } else {
        partitions_imputed(
            keys.drop_last(),
            starts.drop_last(),
            missing,
            by_date,
            offset,
            session_count,
        ) + if reaches(starts.last(), offset, session_count) {
            imputed_count(
                universe_assets(by_date, (keys.last().date, 0i64, 0i64, 0i64)),
                missing,
                starts.last() + offset,
            )
        } else {
            0nat
        }
    }
}

/// The imputed return cells that the event study reads at `offset`: each reached event's own
/// return and, with `group_adjust`, its group universe's; with `demeaned` alone, the date
/// universe of each reached partition.
pub open spec fn offset_imputed(
    events: Seq<Event>,
    keys: Seq<PartitionKey>,
    starts: Seq<usize>,
    missing: Seq<Vec<bool>>,
    by_date: Universes,
    by_date_group: Universes,
    demeaned: bool,
    group_adjust: bool,
    offset: int,
    session_count: int,
) -> nat {
    events_imputed(events, missing, by_date_group, group_adjust, offset, session_count) + if demeaned
        && !group_adjust {
        partitions_imputed(keys, starts, missing, by_date, offset, session_count)
    } else {
        0nat
    }
}

proof fn lemma_events_prefix(
    events: Seq<Event>,
    j: int,
    missing: Seq<Vec<bool>>,
    ug: Universes,
    ga: bool,
    offset: int,
    n: int,
)
    requires
        0 <= j <= events.len(),
    ensures
        events_imputed(events.subrange(0, j), missing, ug, ga, offset, n) <= events_imputed(
            events,
            missing,
            ug,
            ga,
            offset,
            n,
        ),
    decreases events.len(),
{
    if j < events.len() {
        assert(events.drop_last().subrange(0, j) =~= events.subrange(0, j));
        lemma_events_prefix(events.drop_last(), j, missing, ug, ga, offset, n);
    } else {
        assert(events.subrange(0, j) =~= events);
    }
}

proof fn lemma_partitions_prefix(
    keys: Seq<PartitionKey>,
    starts: Seq<usize>,
    j: int,
    missing: Seq<Vec<bool>>,
    ud: Universes,
    offset: int,
    n: int,
)
    requires
        0 <= j <= keys.len(),
        keys.len() == starts.len(),
    ensures
        partitions_imputed(keys.subrange(0, j), starts.subrange(0, j), missing, ud, offset, n)
            <= partitions_imputed(keys, starts, missing, ud, offset, n),
    decreases keys.len(),
{
    if j < keys.len() {
        assert(keys.drop_last().subrange(0, j) =~= keys.subrange(0, j));
        assert(starts.drop_last().subrange(0, j) =~= starts.subrange(0, j));
        lemma_partitions_prefix(keys.drop_last(), starts.drop_last(), j, missing, ud, offset, n);
    } else {
        assert(keys.subrange(0, j) =~= keys);
        assert(starts.subrange(0, j) =~= starts);
    }
}

fn is_imputed(missing: &[Vec<bool>], asset: u64, t: usize) -> (r: bool)
    ensures
        r == imputed_at(missing@, asset, t as int),
{
    if asset >= missing.len() as u64 {
        return true;
    }
    let path = &missing[asset as usize];
    if t >= path.len() {
        return true;
    }
    path[t]
}

fn count_imputed(assets: &Vec<u64>, missing: &[Vec<bool>], t: usize) -> (r: u128)
    ensures
        r == imputed_count(assets@, missing@, t as int),
        r <= assets@.len(),
{
    let mut count: u128 = 0;
    let mut k: usize = 0;
    while k < assets.len()
        invariant
            k <= assets@.len(),
            count == imputed_count(assets@.subrange(0, k as int), missing@, t as int),
            count <= k,
        decreases assets@.len() - k,
    {
        proof {
            assert(assets@.subrange(0, k + 1).drop_last() =~= assets@.subrange(0, k as int));
        }
        if is_imputed(missing, assets[k], t) {
            count = count + 1;
        }
        k = k + 1;
    }
    proof {
        assert(assets@.subrange(0, k as int) =~= assets@);
    }
    count
}

/// The position of the universe with this key, when there is one.
fn universe_index(u: &Universes, key: CellKey) -> (r: Option<usize>)
    requires
        keys_sorted(u.keys@),
        u.assets@.len() == u.keys@.len(),
    ensures
        match r {
            Some(g) => g < u.keys@.len() && u.assets@[g as int]@ == universe_assets(*u, key),
            None => universe_assets(*u, key) == Seq::<u64>::empty(),
        },
{
    let p: usize = key_position(&u.keys, key);
    if p < u.keys.len() && key_equal(u.keys[p], key) {
        proof {
            let g = choose|g: int| 0 <= g < u.keys@.len() && u.keys@[g] == key;
            if g < p {
                assert(key_lt(u.keys@[g], u.keys@[p as int]));
            } else if g > p {
                assert(key_lt(u.keys@[p as int], u.keys@[g]));
            }
        }
        Some(p)
    } else {
        proof {
            if exists|g: int| 0 <= g < u.keys@.len() && u.keys@[g] == key {
                let g = choose|g: int| 0 <= g < u.keys@.len() && u.keys@[g] == key;
                if g > p {
                    assert(key_lt(u.keys@[p as int], u.keys@[g]));
                }
            }
        }
        None
    }
}

/// The imputed return cells that the event study reads at each offset of the window, from
/// `-periods_before` to `periods_after` (see `offset_imputed`); `None` when a count does not
/// fit in 64 bits.
pub fn imputed_cells(
    events: &[Event],
    keys: &[PartitionKey],
    starts: &[usize],
    missing: &[Vec<bool>],
    by_date: &Universes,
    by_date_group: &Universes,
    session_count: usize,
    periods_before: u32,
    periods_after: u32,
    demeaned: bool,
    group_adjust: bool,
) -> (r: Option<Vec<u64>>)
    requires
        keys@.len() == starts@.len(),
        keys_sorted(by_date.keys@),
        by_date.assets@.len() == by_date.keys@.len(),
        keys_sorted(by_date_group.keys@),
        by_date_group.assets@.len() == by_date_group.keys@.len(),
    ensures
        r matches Some(v) ==> v@.len() == periods_before + periods_after + 1 && forall|k: int|
            0 <= k < v@.len() ==> #[trigger] v@[k] == offset_imputed(
                events@,
                keys@,
                starts@,
                missing@,
                *by_date,
                *by_date_group,
                demeaned,
                group_adjust,
                k - periods_before,
                session_count as int,
            ),
        r is None <==> exists|o: int|
            -periods_before <= o <= periods_after && #[trigger] offset_imputed(
                events@,
                keys@,
                starts@,
                missing@,
                *by_date,
                *by_date_group,
                demeaned,
                group_adjust,
                o,
                session_count as int,
            ) > u64::MAX,
{
    let mut out: Vec<u64> = Vec::new();
    let mut offset: i64 = -(periods_before as i64);
    let end: i64 = periods_after as i64;
    while offset <= end
        invariant
            keys@.len() == starts@.len(),
            keys_sorted(by_date.keys@),
            by_date.assets@.len() == by_date.keys@.len(),
            keys_sorted(by_date_group.keys@),
            by_date_group.assets@.len() == by_date_group.keys@.len(),
            end == periods_after,
            -(periods_before as int) <= offset <= end + 1,
            out@.len() == offset + periods_before,
            forall|k: int| 0 <= k < out@.len() ==> #[trigger] out@[k] == offset_imputed(
                events@,
                keys@,
                starts@,
                missing@,
                *by_date,
                *by_date_group,
                demeaned,
                group_adjust,
                k - periods_before,
                session_count as int,
            ),
        decreases end + 1 - offset,
    {
        let mut sum: u64 = 0;
        let mut j: usize = 0;
        while j < events.len()
            invariant
                keys_sorted(by_date_group.keys@),
                by_date_group.assets@.len() == by_date_group.keys@.len(),
                -(periods_before as int) <= offset <= periods_after,
                j <= events@.len(),
                sum == events_imputed(
                    events@.subrange(0, j as int),
                    missing@,
                    *by_date_group,
                    group_adjust,
                    offset as int,
                    session_count as int,
                ),
            decreases events@.len() - j,
        {
            let ghost pre = events@.subrange(0, j as int);
            let ghost post = events@.subrange(0, j + 1);
            proof {
                assert(post.drop_last() =~= pre);
                lemma_events_prefix(
                    events@,
                    j + 1,
                    missing@,
                    *by_date_group,
                    group_adjust,
                    offset as int,
                    session_count as int,
                );
            }
            let e: Event = events[j];
            let target: i128 = e.session_index as i128 + offset as i128;
            if 0 <= target && target < session_count as i128 {
                let t: usize = target as usize;
                let mut term: u128 = if is_imputed(missing, e.asset, t) {
                    1
                } else {
                    0
                };
                assert(term <= 1);
                if group_adjust {
                    match e.group {
                        Some(g) => {
                            if g <= 9223372036854775807u64 {
                                match universe_index(by_date_group, (e.date, g as i64, 0i64, 0i64)) {
                                    Some(idx) => {
                                        let members = &by_date_group.assets[idx];
                                        let count: u128 = count_imputed(members, missing, t);
                                        assert(count <= members.len());
                                        term = term + count;
                                    },
                                    None => {},
                                }
                            }
                        },
                        None => {},
                    }
                }
                assert(term == event_term(e, missing@, *by_date_group, group_adjust, offset as int));
                assert(term <= 1 + usize::MAX);
                proof {
                    assert(post.last() == e);
                    assert(sum + term == events_imputed(
                        post,
                        missing@,
                        *by_date_group,
                        group_adjust,
                        offset as int,
                        session_count as int,
                    ));
                }
                if sum as u128 + term > 18446744073709551615u128 {
                    proof {
                        assert(offset_imputed(
                events@,
                keys@,
                starts@,
                missing@,
                *by_date,
                *by_date_group,
                demeaned,
                group_adjust,
                offset as int,
                session_count as int,
            ) > u64::MAX);
                    }
                    return None;
                }
                sum = (sum as u128 + term) as u64;
            }
            j = j + 1;
        }
        proof {
            assert(events@.subrange(0, events@.len() as int) =~= events@);
        }
        if demeaned && !group_adjust {
            let mut p: usize = 0;
            while p < keys.len()
                invariant
                    keys@.len() == starts@.len(),
                    keys_sorted(by_date.keys@),
                    by_date.assets@.len() == by_date.keys@.len(),
                    -(periods_before as int) <= offset <= periods_after,
                    demeaned && !group_adjust,
                    p <= keys@.len(),
                    sum == events_imputed(
                        events@,
                        missing@,
                        *by_date_group,
                        group_adjust,
                        offset as int,
                        session_count as int,
                    ) + partitions_imputed(
                        keys@.subrange(0, p as int),
                        starts@.subrange(0, p as int),
                        missing@,
                        *by_date,
                        offset as int,
                        session_count as int,
                    ),
                decreases keys@.len() - p,
            {
                proof {
                    assert(keys@.subrange(0, p + 1).drop_last() =~= keys@.subrange(0, p as int));
                    assert(starts@.subrange(0, p + 1).drop_last() =~= starts@.subrange(0, p as int));
                    lemma_partitions_prefix(
                        keys@,
                        starts@,
                        p + 1,
                        missing@,
                        *by_date,
                        offset as int,
                        session_count as int,
                    );
                }
                let target: i128 = starts[p] as i128 + offset as i128;
                if 0 <= target && target < session_count as i128 {
                    let t: usize = target as usize;
                    let term: u128 = match universe_index(by_date, (keys[p].date, 0i64, 0i64, 0i64)) {
                        Some(idx) => {
                            let members = &by_date.assets[idx];
                            let count: u128 = count_imputed(members, missing, t);
                            assert(count <= members.len());
                            count
                        },
                        None => 0,
                    };
                    assert(term <= usize::MAX);
                    proof {
                        let kp = keys@.subrange(0, p + 1);
                        let sp = starts@.subrange(0, p + 1);
                        assert(kp.last() == keys@[p as int]);
                        assert(sp.last() == starts@[p as int]);
                        assert(partitions_imputed(
                            kp,
                            sp,
                            missing@,
                            *by_date,
                            offset as int,
                            session_count as int,
                        ) == partitions_imputed(
                            keys@.subrange(0, p as int),
                            starts@.subrange(0, p as int),
                            missing@,
                            *by_date,
                            offset as int,
                            session_count as int,
                        ) + term);
                    }
                    if sum as u128 + term > 18446744073709551615u128 {
                        proof {
                            assert(offset_imputed(
                events@,
                keys@,
                starts@,
                missing@,
                *by_date,
                *by_date_group,
                demeaned,
                group_adjust,
                offset as int,
                session_count as int,
            ) > u64::MAX);
                        }
                        return None;
                    }
                    sum = (sum as u128 + term) as u64;
                }
                p = p + 1;
            }
            proof {
                assert(keys@.subrange(0, keys@.len() as int) =~= keys@);
                assert(starts@.subrange(0, starts@.len() as int) =~= starts@);
            }
        }
        assert(sum == offset_imputed(
                events@,
                keys@,
                starts@,
                missing@,
                *by_date,
                *by_date_group,
                demeaned,
                group_adjust,
                offset as int,
                session_count as int,
            ));
        let ghost before = out@;
        out.push(sum);
        proof {
            assert forall|k: int| 0 <= k < out@.len() implies #[trigger] out@[k] == offset_imputed(
                events@,
                keys@,
                starts@,
                missing@,
                *by_date,
                *by_date_group,
                demeaned,
                group_adjust,
                k - periods_before,
                session_count as int,
            ) by {
                if k < before.len() {
                    assert(out@[k] == before[k]);
                }
            }
        }
        offset = offset + 1;
    }
    proof {
        assert forall|o: int| -periods_before <= o <= periods_after implies #[trigger] offset_imputed(
                events@,
                keys@,
                starts@,
                missing@,
                *by_date,
                *by_date_group,
                demeaned,
                group_adjust,
                o,
                session_count as int,
            )
            <= u64::MAX by {
            let k = o + periods_before;
            assert(out@[k] == offset_imputed(
                events@,
                keys@,
                starts@,
                missing@,
                *by_date,
                *by_date_group,
                demeaned,
                group_adjust,
                k - periods_before,
                session_count as int,
            ));
        }
    }
    Some(out)
}

} // verus!
