use vstd::prelude::*;

use crate::calendar::strictly_increasing;

verus! {

/// One session of an event's window: the event, the offset from its date, and the session
/// that offset reaches.
#[derive(Debug, Clone, Copy, PartialEq, Eq)]
pub struct WindowTarget {
    pub event: usize,
    pub offset: i32,
    pub session: usize,
}

/// `t` is a session in the window of event `t.event`: the event's date is a session of the
/// calendar, and `t.offset` sessions from it, within the window, lies on the calendar.
pub open spec fn in_window(
    calendar: Seq<i64>,
    dates: Seq<i64>,
    before: u32,
    after: u32,
    t: WindowTarget,
) -> bool {
    &&& t.event < dates.len()
    &&& -before <= t.offset <= after
    &&& t.session < calendar.len()
    &&& 0 <= t.session - t.offset < calendar.len()
    &&& calendar[t.session - t.offset] == dates[t.event as int]
}

/// `a` comes before `b`: an earlier event, or the same event at an earlier offset.
pub open spec fn target_before(a: WindowTarget, b: WindowTarget) -> bool {
    a.event < b.event || (a.event == b.event && a.offset < b.offset)
}

fn session_of(calendar: &[i64], date: i64) -> (r: Option<usize>)
    requires
        strictly_increasing(calendar@),
    ensures
        match r {
            Some(z) => z < calendar@.len() && calendar@[z as int] == date,
            None => !calendar@.contains(date),
        },
{
    let mut lo: usize = 0;
    let mut hi: usize = calendar.len();
    while lo < hi
        invariant
            hi <= calendar@.len(),
            lo <= hi,
            strictly_increasing(calendar@),
            forall|k: int| 0 <= k < lo ==> calendar@[k] < date,
            forall|k: int| hi <= k < calendar@.len() ==> calendar@[k] > date,
        decreases hi - lo,
    {
        let mid: usize = lo + (hi - lo) / 2;
        if calendar[mid] == date {
            return Some(mid);
        } else if calendar[mid] < date {
            lo = mid + 1;
        } else {
            hi = mid;
        }
    }
    None
}

/// The sessions of each event's window, from `periods_before` sessions before its date to
/// `periods_after` after, that the calendar holds; events whose date is not a session have
/// none. They come by event, then by offset.
pub fn window_targets(calendar: &[i64], dates: &[i64], periods_before: u32, periods_after: u32) -> (r:
    Vec<WindowTarget>)
    requires
        strictly_increasing(calendar@),
        periods_before <= i32::MAX,
        periods_after <= i32::MAX,
    ensures
        forall|a: int, b: int|
            0 <= a < b < r@.len() ==> target_before(#[trigger] r@[a], #[trigger] r@[b]),
        forall|t: WindowTarget|
            r@.contains(t) <==> in_window(calendar@, dates@, periods_before, periods_after, t),
{
    let mut out: Vec<WindowTarget> = Vec::new();
    let mut g: usize = 0;
    while g < dates.len()
        invariant
            strictly_increasing(calendar@),
            periods_before <= i32::MAX,
            periods_after <= i32::MAX,
            g <= dates@.len(),
            forall|a: int, b: int|
                0 <= a < b < out@.len() ==> target_before(#[trigger] out@[a], #[trigger] out@[b]),
            forall|a: int| 0 <= a < out@.len() ==> (#[trigger] out@[a]).event < g,
            forall|t: WindowTarget|
                out@.contains(t) <==> (in_window(calendar@, dates@, periods_before, periods_after, t)
                    && t.event < g),
        decreases dates@.len() - g,
    {
        let ghost at_event = out@;
        match session_of(calendar, dates[g]) {
            None => {
                proof {
                    assert forall|t: WindowTarget|
                        out@.contains(t) <==> (in_window(
                            calendar@,
                            dates@,
                            periods_before,
                            periods_after,
                            t,
                        ) && t.event < g + 1) by {
                        if in_window(calendar@, dates@, periods_before, periods_after, t) && t.event
                            == g {
                            assert(calendar@.contains(calendar@[t.session - t.offset]));
                        }
                    }
                }
            },
            Some(z) => {
                let mut o: i64 = -(periods_before as i64);
                while o <= periods_after as i64
                    invariant
                        strictly_increasing(calendar@),
                        g < dates@.len(),
                        z < calendar@.len(),
                        calendar@[z as int] == dates@[g as int],
                        periods_before <= i32::MAX,
                        periods_after <= i32::MAX,
                        -(periods_before as int) <= o <= periods_after + 1,
                        forall|a: int, b: int|
                            0 <= a < b < out@.len() ==> target_before(#[trigger] out@[a], #[trigger] out@[b]),
                        forall|a: int| 0 <= a < out@.len() ==> (#[trigger] out@[a]).event <= g,
                        forall|a: int|
                            0 <= a < out@.len() && (#[trigger] out@[a]).event == g ==> out@[a].offset < o,
                        forall|t: WindowTarget|
                            out@.contains(t) <==> (in_window(
                                calendar@,
                                dates@,
                                periods_before,
                                periods_after,
                                t,
                            ) && (t.event < g || (t.event == g && t.offset < o))),
                    decreases periods_after + 1 - o,
                {
                    let target: i128 = z as i128 + o as i128;
                    let ghost prev = out@;
                    if 0 <= target && target < calendar.len() as i128 {
                        let t = WindowTarget { event: g, offset: o as i32, session: target as usize };
                        out.push(t);
                        proof {
                            assert(out@ == prev.push(t));
                            assert forall|a: int, b: int| 0 <= a < b < out@.len() implies target_before(
                                #[trigger] out@[a],
                                #[trigger] out@[b],
                            ) by {
                                if b == prev.len() {
                                    assert(out@[a] == prev[a]);
                                }
                            }
                            assert forall|u: WindowTarget|
                                out@.contains(u) <==> (in_window(
                                    calendar@,
                                    dates@,
                                    periods_before,
                                    periods_after,
                                    u,
                                ) && (u.event < g || (u.event == g && u.offset < o + 1))) by {
                                if out@.contains(u) && u != t {
                                    let a = choose|a: int| 0 <= a < out@.len() && out@[a] == u;
                                    assert(prev[a] == u);
                                    assert(prev.contains(u));
                                }
                                if u == t {
                                    assert(out@[prev.len() as int] == t);
                                }
                                if u.event == g && u.offset == o && in_window(
                                    calendar@,
                                    dates@,
                                    periods_before,
                                    periods_after,
                                    u,
                                ) {
                                    let w = u.session - u.offset;
                                    if w < z {
                                        assert(calendar@[w] < calendar@[z as int]);
                                    } else if w > z {
                                        assert(calendar@[z as int] < calendar@[w]);
                                    }
                                    assert(u == t);
                                }
                                if prev.contains(u) {
                                    let a = choose|a: int| 0 <= a < prev.len() && prev[a] == u;
                                    assert(out@[a] == u);
                                }
                            }
                        }
                    } else {
                        proof {
                            assert forall|u: WindowTarget|
                                out@.contains(u) <==> (in_window(
                                    calendar@,
                                    dates@,
                                    periods_before,
                                    periods_after,
                                    u,
                                ) && (u.event < g || (u.event == g && u.offset < o + 1))) by {
                                if u.event == g && u.offset == o && in_window(
                                    calendar@,
                                    dates@,
                                    periods_before,
                                    periods_after,
                                    u,
                                ) {
                                    let w = u.session - u.offset;
                                    if w < z {
                                        assert(calendar@[w] < calendar@[z as int]);
                                    } else if w > z {
                                        assert(calendar@[z as int] < calendar@[w]);
                                    }
                                }
                            }
                        }
                    }
                    o = o + 1;
                }
                proof {
                    assert forall|t: WindowTarget|
                        out@.contains(t) <==> (in_window(
                            calendar@,
                            dates@,
                            periods_before,
                            periods_after,
                            t,
                        ) && t.event < g + 1) by {}
                }
            },
        }
        g = g + 1;
    }
    proof {
        assert forall|t: WindowTarget|
            out@.contains(t) <==> in_window(calendar@, dates@, periods_before, periods_after, t) by {}
    }
    out
}

} // verus!
