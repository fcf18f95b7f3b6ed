use vstd::prelude::*;

use crate::error::FerricAlphaError;
use crate::performance::options::EventReturnsOptions;

verus! {

/// One factor row as the event study reads it; assets and groups by id.
#[derive(Debug, Clone, Copy, PartialEq, Eq)]
pub struct EventRow {
    pub date: i64,
    pub asset: u64,
    pub group: Option<u64>,
    pub quantile: Option<u32>,
}

/// A factor row with a positive quantile on a date that the return calendar has.
#[derive(Debug, Clone, Copy, PartialEq, Eq)]
pub struct Event {
    pub date: i64,
    pub session_index: usize,
    pub asset: u64,
    pub group: Option<u64>,
    pub quantile: u32,
}

/// The events of a study and how many rows were read and dropped on the way.
#[derive(Debug, Clone, PartialEq, Eq)]
pub struct EventSelection {
    pub events: Vec<Event>,
    pub input_events: u64,
    pub skipped_missing_date: u64,
}

pub open spec fn sessions_sorted(s: Seq<i64>) -> bool {
    forall|i: int, j: int| 0 <= i < j < s.len() ==> s[i] < s[j]
}

/// A row counts as an event when it carries a positive quantile.
pub open spec fn is_event_row(row: EventRow) -> bool {
    row.quantile matches Some(q) && q > 0
}

/// The rows that count as events, in order.
pub open spec fn event_rows(rows: Seq<EventRow>) -> Seq<EventRow> {
    rows.filter(|row: EventRow| is_event_row(row))
}

/// The event that a row becomes on a calendar, when its date is a session.
pub open spec fn event_of(row: EventRow, sessions: Seq<i64>) -> Option<Event> {
    if sessions.contains(row.date) {
        Some(
            Event {
                date: row.date,
                session_index: sessions.index_of(row.date) as usize,
                asset: row.asset,
                group: row.group,
                quantile: row.quantile->0,
            },
        )
    } else {
        None
    }
}

/// The events of a list of rows, in order.
pub open spec fn events_of(rows: Seq<EventRow>, sessions: Seq<i64>) -> Seq<Event>
    decreases rows.len(),
{
    if rows.len() == 0 {
        Seq::empty()
    } else {
        let rest = events_of(rows.drop_last(), sessions);
        if is_event_row(rows.last()) {
            match event_of(rows.last(), sessions) {
                Some(e) => rest.push(e),
                None => rest,
            }
        } else {
            rest
        }
    }
}

/// How many event rows fall on dates the calendar lacks.
pub open spec fn skipped_of(rows: Seq<EventRow>, sessions: Seq<i64>) -> nat
    decreases rows.len(),
{
    if rows.len() == 0 {
        0
    } else {
        skipped_of(rows.drop_last(), sessions) + if is_event_row(rows.last()) && !sessions.contains(
            rows.last().date,
        ) {
            1nat
        } else {
            0nat
        }
    }
}

/// How many rows count as events.
pub open spec fn input_of(rows: Seq<EventRow>) -> nat
    decreases rows.len(),
{
    if rows.len() == 0 {
        0
    } else {
        input_of(rows.drop_last()) + if is_event_row(rows.last()) {
            1nat
        } else {
            0nat
        }
    }
}

/// Whether the study splits or adjusts by group, so that every event needs one.
pub open spec fn needs_group(options: EventReturnsOptions) -> bool {
    options.group_adjust || options.by_group
}

/// An event row without a group, when groups are needed.
pub open spec fn missing_group(row: EventRow, need_group: bool) -> bool {
    need_group && is_event_row(row) && row.group is None
}

proof fn lemma_prefix_step(rows: Seq<EventRow>, i: int)
    requires
        0 <= i < rows.len(),
    ensures
        rows.subrange(0, i + 1).drop_last() == rows.subrange(0, i),
        rows.subrange(0, i + 1).last() == rows[i],
{
    assert(rows.subrange(0, i + 1).drop_last() =~= rows.subrange(0, i));
}

/// Picks the events of a study out of factor rows: rows with a positive quantile, on a
/// date the return calendar has. Rows of event dates outside the calendar are counted as
/// skipped. When groups are needed, an event row without one is refused.
pub fn select_events(rows: &[EventRow], sessions: &[i64], options: EventReturnsOptions) -> (r:
    Result<EventSelection, FerricAlphaError>)
    requires
        sessions_sorted(sessions@),
    ensures
        ({
            let need = needs_group(options);
            match r {
                Err(e) => {
                    ||| (exists|k: int|
                        0 <= k < rows@.len() && #[trigger] missing_group(rows@[k], need)) && e
                        == (FerricAlphaError::InvalidInput {
                        operation: "average_cumulative_return_by_quantile",
                        reason: "group must not contain null values",
                    })
                    ||| (forall|k: int|
                        0 <= k < rows@.len() ==> !#[trigger] missing_group(rows@[k], need))
                        && events_of(rows@, sessions@).len() == 0 && e
                        == (FerricAlphaError::InsufficientData {
                        operation: "average_cumulative_return_by_quantile",
                    })
                },
                Ok(sel) => {
                    &&& forall|k: int|
                        0 <= k < rows@.len() ==> !#[trigger] missing_group(rows@[k], need)
                    &&& sel.events@ == events_of(rows@, sessions@)
                    &&& sel.events@.len() > 0
                    &&& sel.input_events == input_of(rows@)
                    &&& sel.skipped_missing_date == skipped_of(rows@, sessions@)
                },
            }
        }),
        (forall|k: int|
            0 <= k < rows@.len() ==> !#[trigger] missing_group(
                rows@[k],
                needs_group(options),
            )) && events_of(rows@, sessions@).len() > 0 ==> r is Ok,
{
    let need: bool = options.group_adjust || options.by_group;
    let n: usize = rows.len();
    let mut events: Vec<Event> = Vec::new();
    let mut input_events: u64 = 0;
    let mut skipped: u64 = 0;
    let mut i: usize = 0;
    while i < n
        invariant
            n == rows@.len(),
            i <= n,
            sessions_sorted(sessions@),
            need == needs_group(options),
            forall|k: int| 0 <= k < i ==> !#[trigger] missing_group(rows@[k], need),
            events@ == events_of(rows@.subrange(0, i as int), sessions@),
            input_events == input_of(rows@.subrange(0, i as int)),
            skipped == skipped_of(rows@.subrange(0, i as int), sessions@),
            input_events <= i,
            skipped <= i,
        decreases n - i,
    {
        let row: EventRow = rows[i];
        proof {
            lemma_prefix_step(rows@, i as int);
        }
        let quantile: u32 = match row.quantile {
            Some(q) => q,
            None => 0,
        };
        if quantile > 0 {
            if need && row.group.is_none() {
                assert(missing_group(rows@[i as int], need));
                return Err(
                    FerricAlphaError::InvalidInput {
                        operation: "average_cumulative_return_by_quantile",
                        reason: "group must not contain null values",
                    },
                );
            }
            input_events = input_events + 1;
            let m: usize = sessions.len();
            let mut lo: usize = 0;
            let mut hi: usize = m;
            while lo < hi
                invariant
                    m == sessions@.len(),
                    sessions_sorted(sessions@),
                    lo <= hi <= m,
                    forall|k: int| 0 <= k < lo ==> sessions@[k] < row.date,
                    forall|k: int| hi <= k < m ==> sessions@[k] >= row.date,
                decreases hi - lo,
            {
                let mid: usize = lo + (hi - lo) / 2;
                if sessions[mid] < row.date {
                    lo = mid + 1;
                } else {
                    hi = mid;
                }
            }
            if lo < m && sessions[lo] == row.date {
                proof {
                    assert(sessions@.contains(row.date));
                    let j = sessions@.index_of(row.date);
                    assert(sessions@[j] == row.date);
                    if j < lo {
                    } else if j > lo {
                        assert(sessions@[lo as int] < sessions@[j]);
                    }
                }
                events.push(
                    Event {
                        date: row.date,
                        session_index: lo,
                        asset: row.asset,
                        group: row.group,
                        quantile,
                    },
                );
            } else {
                proof {
                    if sessions@.contains(row.date) {
                        let j = choose|j: int| 0 <= j < m && sessions@[j] == row.date;
                        if j > lo {
                            assert(sessions@[lo as int] < sessions@[j]);
                        }
                    }
                }
                skipped = skipped + 1;
            }
        }
        i = i + 1;
    }
    proof {
        assert(rows@.subrange(0, n as int) =~= rows@);
    }
    if events.len() == 0 {
        return Err(
            FerricAlphaError::InsufficientData {
                operation: "average_cumulative_return_by_quantile",
            },
        );
    }
    Ok(EventSelection { events, input_events, skipped_missing_date: skipped })
}


/// The key events are grouped by: their date, their quantile and, when the study splits by
/// group, their group.
#[derive(Debug, Clone, Copy, PartialEq, Eq, Structural)]
pub struct PartitionKey {
    pub date: i64,
    pub quantile: u32,
    pub group: Option<u64>,
}

pub open spec fn key_of(e: Event, by_group: bool) -> PartitionKey {
    PartitionKey { date: e.date, quantile: e.quantile, group: if by_group { e.group } else { None } }
}

/// Events grouped by key, in order of first appearance: each partition's key, its size and
/// the session of its date, and for each event the partition that holds it.
#[derive(Debug, Clone, PartialEq, Eq)]
pub struct EventPartitions {
    pub keys: Vec<PartitionKey>,
    pub sizes: Vec<u64>,
    pub sessions: Vec<usize>,
    pub membership: Vec<usize>,
}

/// How many events have this key.
pub open spec fn key_count(events: Seq<Event>, key: PartitionKey, by_group: bool) -> nat
    decreases events.len(),
{
    if events.len() == 0 {
        0
    } else {
        key_count(events.drop_last(), key, by_group) + if key_of(events.last(), by_group) == key {
            1nat
        } else {
            0nat
        }
    }
}

pub open spec fn dates_nondecreasing(events: Seq<Event>) -> bool {
    forall|i: int, j: int| 0 <= i <= j < events.len() ==> events[i].date <= events[j].date
}

/// The grouping is right for `events`.
pub open spec fn partitions_of(p: EventPartitions, events: Seq<Event>, by_group: bool) -> bool {
    &&& p.sizes@.len() == p.keys@.len()
    &&& p.sessions@.len() == p.keys@.len()
    &&& p.membership@.len() == events.len()
    &&& forall|a: int, b: int| 0 <= a < b < p.keys@.len() ==> p.keys@[a] != p.keys@[b]
    &&& forall|i: int|
        0 <= i < events.len() ==> (#[trigger] p.membership@[i]) < p.keys@.len() && p.keys@[p.membership@[i] as int]
            == key_of(events[i], by_group) && p.sessions@[p.membership@[i] as int]
            == events[i].session_index
    &&& forall|a: int|
        0 <= a < p.keys@.len() ==> #[trigger] p.sizes@[a] == key_count(events, p.keys@[a], by_group)
            && p.sizes@[a] > 0
}

proof fn lemma_key_count_step(events: Seq<Event>, i: int, key: PartitionKey, by_group: bool)
    requires
        0 <= i < events.len(),
    ensures
        key_count(events.subrange(0, i + 1), key, by_group) == key_count(
            events.subrange(0, i),
            key,
            by_group,
        ) + if key_of(events[i], by_group) == key {
            1nat
        } else {
            0nat
        },
{
    assert(events.subrange(0, i + 1).drop_last() =~= events.subrange(0, i));
}

proof fn lemma_key_count_le(events: Seq<Event>, key: PartitionKey, by_group: bool)
    ensures
        key_count(events, key, by_group) <= events.len(),
    decreases events.len(),
{
    if events.len() > 0 {
        lemma_key_count_le(events.drop_last(), key, by_group);
    }
}

/// Groups the events of a study by date, quantile and (when asked) group.
pub fn partition_events(events: &[Event], by_group: bool) -> (r: EventPartitions)
    requires
        dates_nondecreasing(events@),
        forall|i: int, j: int|
            0 <= i < events@.len() && 0 <= j < events@.len() && events@[i].date == events@[j].date
                ==> events@[i].session_index == events@[j].session_index,
    ensures
        partitions_of(r, events@, by_group),
{
    let n: usize = events.len();
    let mut keys: Vec<PartitionKey> = Vec::new();
    let mut sizes: Vec<u64> = Vec::new();
    let mut sessions: Vec<usize> = Vec::new();
    let mut membership: Vec<usize> = Vec::new();
    let mut i: usize = 0;
    while i < n
        invariant
            n == events@.len(),
            i <= n,
            dates_nondecreasing(events@),
            forall|a: int, b: int|
                0 <= a < events@.len() && 0 <= b < events@.len() && events@[a].date == events@[b].date
                    ==> events@[a].session_index == events@[b].session_index,
            partitions_of(
                EventPartitions { keys, sizes, sessions, membership },
                events@.subrange(0, i as int),
                by_group,
            ),
            forall|a: int|
                #![trigger keys@[a]]
                0 <= a < keys@.len() ==> exists|k: int|
                    0 <= k < i && #[trigger] key_of(events@[k], by_group) == keys@[a],
            forall|a: int, b: int| 0 <= a < b < keys@.len() ==> keys@[a].date <= keys@[b].date,
        decreases n - i,
    {
        let e: Event = events[i];
        let key = PartitionKey {
            date: e.date,
            quantile: e.quantile,
            group: if by_group {
                e.group
            } else {
                None
            },
        };
        let ghost pre = events@.subrange(0, i as int);
        let ghost post = events@.subrange(0, i + 1);
        proof {
            assert(post.drop_last() =~= pre);
            assert(post.last() == e);
        }
        let m: usize = keys.len();
        let mut j: usize = m;
        let mut found: bool = false;
        while j > 0 && !found && keys[j - 1].date == key.date
            invariant
                j <= m,
                m == keys@.len(),
                found ==> j > 0 && keys@[j - 1] == key,
                !found ==> forall|a: int| j <= a < m ==> keys@[a] != key,
            decreases j, if found { 0int } else { 1int },
        {
            if keys[j - 1] == key {
                found = true;
            } else {
                j = j - 1;
            }
        }
        let p: usize = if found { j - 1 } else { m };
        proof {
            if !found {
                assert forall|a: int| 0 <= a < m implies keys@[a] != key by {
                    if a < j {
                        if j > 0 {
                            assert(keys@[j - 1].date != key.date);
                            let k = choose|k: int|
                                0 <= k < i && #[trigger] key_of(events@[k], by_group) == keys@[j - 1];
                            assert(events@[k].date <= e.date);
                            assert(keys@[a].date <= keys@[j - 1].date);
                        }
                    }
                }
            }
        }
        let ghost old_keys = keys@;
        let ghost old_sessions = sessions@;
        let ghost old_membership = membership@;
        if !found {
            keys.push(key);
            sizes.push(0);
            sessions.push(e.session_index);
        }
        let old_size: u64 = sizes[p];
        proof {
            lemma_key_count_le(pre, key, by_group);
            assert(keys@[p as int] == key);
            if found {
                assert(sizes@[p as int] == key_count(pre, keys@[p as int], by_group));
            }
            assert(old_size <= i);
        }
        sizes.set(p, old_size + 1);
        membership.push(p);
        proof {
            let part = EventPartitions { keys, sizes, sessions, membership };
            assert forall|a: int| 0 <= a < keys@.len() implies #[trigger] sizes@[a] == key_count(
                post,
                keys@[a],
                by_group,
            ) && sizes@[a] > 0 by {
                lemma_key_count_step(events@, i as int, keys@[a], by_group);
                if a == p && !found {
                    assert(key_count(pre, key, by_group) == 0) by {
                        if key_count(pre, key, by_group) > 0 {
                            lemma_key_present(pre, key, by_group);
                            let k = choose|k: int| 0 <= k < pre.len() && key_of(pre[k], by_group) == key;
                            assert(old_membership[k] < m);
                            assert(old_keys[old_membership[k] as int] == key_of(pre[k], by_group));
                        }
                    }
                }
            }
            assert forall|k: int| 0 <= k < post.len() implies (#[trigger] membership@[k]) < keys@.len()
                && keys@[membership@[k] as int] == key_of(post[k], by_group)
                && sessions@[membership@[k] as int] == post[k].session_index by {
                if k < i {
                    assert(post[k] == pre[k]);
                    assert(membership@[k] == old_membership[k]);
                    assert(old_membership[k] < m);
                    assert(keys@[old_membership[k] as int] == old_keys[old_membership[k] as int]);
                } else if found {
                    let w = choose|w: int|
                        0 <= w < i && #[trigger] key_of(events@[w], by_group) == old_keys[p as int];
                    assert(pre[w] == events@[w]);
                    let q = old_membership[w] as int;
                    assert(old_keys[q] == key_of(pre[w], by_group));
                    assert(q == p);
                    assert(old_sessions[q] == pre[w].session_index);
                    assert(events@[w].date == e.date);
                    assert(events@[i as int] == e);
                }
            }
            assert forall|a: int, b: int| 0 <= a < b < keys@.len() implies keys@[a] != keys@[b] by {}
            assert forall|a: int|
                #![trigger keys@[a]]
                0 <= a < keys@.len() implies exists|k: int|
                    0 <= k < i + 1 && #[trigger] key_of(events@[k], by_group) == keys@[a] by {
                if a == m && !found {
                    assert(key_of(events@[i as int], by_group) == keys@[a]);
                }
            }
            assert forall|a: int, b: int| 0 <= a < b < keys@.len() implies keys@[a].date <= keys@[b].date by {
                if b == m && !found {
                    let k = choose|k: int| 0 <= k < i && #[trigger] key_of(events@[k], by_group) == keys@[a];
                    assert(events@[k].date <= e.date);
                }
            }
            assert(partitions_of(part, post, by_group));
        }
        i = i + 1;
    }
    proof {
        assert(events@.subrange(0, n as int) =~= events@);
    }
    EventPartitions { keys, sizes, sessions, membership }
}

/// A key that some event has is counted.
proof fn lemma_key_present(events: Seq<Event>, key: PartitionKey, by_group: bool)
    requires
        key_count(events, key, by_group) > 0,
    ensures
        exists|k: int| 0 <= k < events.len() && key_of(events[k], by_group) == key,
    decreases events.len(),
{
    if key_of(events.last(), by_group) != key {
        lemma_key_present(events.drop_last(), key, by_group);
        let k = choose|k: int|
            0 <= k < events.drop_last().len() && key_of(events.drop_last()[k], by_group) == key;
        assert(events[k] == events.drop_last()[k]);
    } else {
        assert(key_of(events[events.len() - 1], by_group) == key);
    }
}


/// What one offset of the event window covers: the events of the partitions whose target
/// session exists, and how many such partitions (paths) there are.
#[derive(Debug, Clone, Copy, PartialEq, Eq)]
pub struct OffsetCoverage {
    pub offset: i32,
    pub used_events: u64,
    pub path_count: u64,
}

/// The session `offset` places from `start` exists.
pub open spec fn reaches(start: usize, offset: int, session_count: int) -> bool {
    0 <= start + offset < session_count
}

/// The events of the partitions that reach `offset`.
pub open spec fn used_at(sizes: Seq<u64>, starts: Seq<usize>, offset: int, session_count: int) -> nat
    decreases sizes.len(),
{
    if sizes.len() == 0 || starts.len() == 0 {
        0
    } else {
        used_at(sizes.drop_last(), starts.drop_last(), offset, session_count) + if reaches(
            starts.last(),
            offset,
            session_count,
        ) {
            sizes.last() as nat
        } else {
            0nat
        }
    }
}

/// The partitions that reach `offset`.
pub open spec fn paths_at(starts: Seq<usize>, offset: int, session_count: int) -> nat
    decreases starts.len(),
{
    if starts.len() == 0 {
        0
    } else {
        paths_at(starts.drop_last(), offset, session_count) + if reaches(
            starts.last(),
            offset,
            session_count,
        ) {
            1nat
        } else {
            0nat
        }
    }
}

pub open spec fn total_size(sizes: Seq<u64>) -> nat
    decreases sizes.len(),
{
    if sizes.len() == 0 {
        0
    } else {
        total_size(sizes.drop_last()) + sizes.last() as nat
    }
}

/// At any offset, the events and paths covered are at most all the events and all the paths.
pub proof fn lemma_used_le_total(sizes: Seq<u64>, starts: Seq<usize>, offset: int, session_count: int)
    requires
        sizes.len() == starts.len(),
    ensures
        used_at(sizes, starts, offset, session_count) <= total_size(sizes),
        paths_at(starts, offset, session_count) <= starts.len(),
    decreases sizes.len(),
{
    if sizes.len() > 0 {
        lemma_used_le_total(sizes.drop_last(), starts.drop_last(), offset, session_count);
    }
}

/// The coverage of every offset of the window, from `-periods_before` to `periods_after`.
pub fn offset_coverage(
    partitions: &EventPartitions,
    session_count: usize,
    periods_before: u32,
    periods_after: u32,
) -> (r: Vec<OffsetCoverage>)
    requires
        partitions.sizes@.len() == partitions.sessions@.len(),
        periods_before <= i32::MAX,
        periods_after <= i32::MAX,
        total_size(partitions.sizes@) <= u64::MAX,
    ensures
        r@.len() == periods_before + periods_after + 1,
        forall|k: int|
            0 <= k < r@.len() ==> {
                let o = k - periods_before;
                &&& (#[trigger] r@[k]).offset == o
                &&& r@[k].used_events == used_at(
                    partitions.sizes@,
                    partitions.sessions@,
                    o,
                    session_count as int,
                )
                &&& r@[k].path_count == paths_at(partitions.sessions@, o, session_count as int)
            },
{
    let sizes = &partitions.sizes;
    let starts = &partitions.sessions;
    let p: usize = sizes.len();
    let mut out: Vec<OffsetCoverage> = Vec::new();
    let mut offset: i64 = -(periods_before as i64);
    let end: i64 = periods_after as i64;
    while offset <= end
        invariant
            p == sizes@.len(),
            p == starts@.len(),
            *sizes == partitions.sizes,
            *starts == partitions.sessions,
            total_size(sizes@) <= u64::MAX,
            end == periods_after,
            periods_before <= i32::MAX,
            periods_after <= i32::MAX,
            -(periods_before as int) <= offset <= end + 1,
            out@.len() == offset + periods_before,
            forall|k: int|
                0 <= k < out@.len() ==> {
                    let o = k - periods_before;
                    &&& (#[trigger] out@[k]).offset == o
                    &&& out@[k].used_events == used_at(sizes@, starts@, o, session_count as int)
                    &&& out@[k].path_count == paths_at(starts@, o, session_count as int)
                },
        decreases end + 1 - offset,
    {
        let mut used: u64 = 0;
        let mut paths: u64 = 0;
        let mut j: usize = 0;
        while j < p
            invariant
                p == sizes@.len(),
                p == starts@.len(),
                total_size(sizes@) <= u64::MAX,
                j <= p,
                used == used_at(
                    sizes@.subrange(0, j as int),
                    starts@.subrange(0, j as int),
                    offset as int,
                    session_count as int,
                ),
                paths == paths_at(starts@.subrange(0, j as int), offset as int, session_count as int),
                paths <= j,
            decreases p - j,
        {
            let ghost s_pre = sizes@.subrange(0, j as int);
            let ghost t_pre = starts@.subrange(0, j as int);
            let ghost s_post = sizes@.subrange(0, j + 1);
            let ghost t_post = starts@.subrange(0, j + 1);
            proof {
                assert(s_post.drop_last() =~= s_pre);
                assert(t_post.drop_last() =~= t_pre);
                lemma_used_le_total(s_post, t_post, offset as int, session_count as int);
                lemma_total_prefix_le(sizes@, j + 1);
            }
            let target: i128 = starts[j] as i128 + offset as i128;
            proof {
                assert(s_post.last() == sizes@[j as int]);
                assert(t_post.last() == starts@[j as int]);
                assert(used_at(s_post, t_post, offset as int, session_count as int) == used_at(
                    s_pre,
                    t_pre,
                    offset as int,
                    session_count as int,
                ) + if reaches(starts@[j as int], offset as int, session_count as int) {
                    sizes@[j as int] as nat
                } else {
                    0nat
                });
            }
            if 0 <= target && target < session_count as i128 {
                used = used + sizes[j];
                paths = paths + 1;
            }
            j = j + 1;
        }
        proof {
            assert(sizes@.subrange(0, p as int) =~= sizes@);
            assert(starts@.subrange(0, p as int) =~= starts@);
        }
        let ghost before = out@;
        let item = OffsetCoverage { offset: offset as i32, used_events: used, path_count: paths };
        assert(item.offset == offset);
        out.push(item);
        proof {
            assert forall|k: int|
                0 <= k < out@.len() implies {
                    let o = k - periods_before;
                    &&& (#[trigger] out@[k]).offset == o
                    &&& out@[k].used_events == used_at(sizes@, starts@, o, session_count as int)
                    &&& out@[k].path_count == paths_at(starts@, o, session_count as int)
                } by {
                if k < before.len() {
                    assert(out@[k] == before[k]);
                } else {
                    assert(out@[k] == item);
                    assert(k - periods_before == offset);
                }
            }
        }
        offset = offset + 1;
    }
    out
}

/// A prefix weighs no more than the whole.
proof fn lemma_total_prefix_le(sizes: Seq<u64>, k: int)
    requires
        0 <= k <= sizes.len(),
    ensures
        total_size(sizes.subrange(0, k)) <= total_size(sizes),
    decreases sizes.len(),
{
    if k == sizes.len() {
        assert(sizes.subrange(0, k) =~= sizes);
    } else {
        assert(sizes.drop_last().subrange(0, k) =~= sizes.subrange(0, k));
        lemma_total_prefix_le(sizes.drop_last(), k);
    }
}


/// Every event row either becomes an event or is counted as skipped for its date.
pub proof fn lemma_selection_counts(rows: Seq<EventRow>, sessions: Seq<i64>)
    ensures
        events_of(rows, sessions).len() + skipped_of(rows, sessions) == input_of(rows),
    decreases rows.len(),
{
    if rows.len() > 0 {
        lemma_selection_counts(rows.drop_last(), sessions);
    }
}

} // verus!
