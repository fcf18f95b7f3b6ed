use vstd::prelude::*;

use crate::calendar::{
    Period, TradingCalendar, lemma_index_of_sorted, lemma_offset_composes, offset_of, period_label,
    strictly_increasing,
};
use crate::report::table::ReportTimeUnit;
use crate::text::{append_decimal, decimal};

verus! {

/// How many date units make one day at a given resolution.
pub open spec fn day_units_of(unit: ReportTimeUnit) -> int {
    match unit {
        ReportTimeUnit::Nanoseconds => 86_400_000_000_000,
        ReportTimeUnit::Microseconds => 86_400_000_000,
        ReportTimeUnit::Milliseconds => 86_400_000,
    }
}

pub fn units_per_day(unit: ReportTimeUnit) -> (r: i64)
    ensures
        r == day_units_of(unit),
        r >= 86_400_000,
{
    match unit {
        ReportTimeUnit::Nanoseconds => 86_400_000_000_000,
        ReportTimeUnit::Microseconds => 86_400_000_000,
        ReportTimeUnit::Milliseconds => 86_400_000,
    }
}

/// Two neighbouring sessions, the later one less than a day after the earlier.
pub open spec fn subdaily_at(s: Seq<i64>, i: int, day: int) -> bool {
    0 <= i < s.len() - 1 && s[i + 1] > s[i] && s[i + 1] - s[i] < day
}

pub open spec fn subdaily(s: Seq<i64>, day: int) -> bool {
    exists|i: int| #[trigger] subdaily_at(s, i, day)
}

/// The gap between neighbouring increasing sessions fits a 64-bit integer.
pub open spec fn gaps_fit(s: Seq<i64>) -> bool {
    forall|i: int| 0 <= i < s.len() - 1 && s[i + 1] > s[i] ==> #[trigger] s[i + 1] - s[i] <= i64::MAX
}

/// Whether some session follows its predecessor by less than a day.
pub fn has_subdaily_sessions(sessions: &[i64], day_units: i64) -> (r: bool)
    requires
        gaps_fit(sessions@),
    ensures
        r == subdaily(sessions@, day_units as int),
{
    let n: usize = sessions.len();
    if n < 2 {
        assert(!subdaily(sessions@, day_units as int));
        return false;
    }
    let mut i: usize = 0;
    while i + 1 < n
        invariant
            n == sessions@.len(),
            n >= 2,
            i + 1 <= n,
            gaps_fit(sessions@),
            forall|k: int| 0 <= k < i ==> !subdaily_at(sessions@, k, day_units as int),
        decreases n - i,
    {
        if sessions[i + 1] > sessions[i] {
            assert(sessions@[i as int + 1] - sessions@[i as int] <= i64::MAX);
            if sessions[i + 1] - sessions[i] < day_units {
                assert(subdaily_at(sessions@, i as int, day_units as int));
                return true;
            }
        }
        i = i + 1;
    }
    proof {
        assert forall|k: int| !#[trigger] subdaily_at(sessions@, k, day_units as int) by {
            if 0 <= k < i {
            }
        }
    }
    false
}

/// The first session and the one `count` places after it, when the calendar is that long.
pub open spec fn span_of(s: Seq<i64>, count: nat) -> Option<(i64, i64)> {
    if count < s.len() {
        Some((s[0], s[count as int]))
    } else {
        None
    }
}

/// The first session from which `period` can be counted forward, with the session reached.
pub fn period_span(calendar: &TradingCalendar, period: Period) -> (r: Option<(i64, i64)>)
    ensures
        r == span_of(calendar@, period.spec_count() as nat),
{
    let sessions = calendar.sessions();
    let count: u32 = period.count();
    let n: usize = sessions.len();
    let mut i: usize = 0;
    while i < n
        invariant
            n == sessions@.len(),
            sessions@ == calendar@,
            strictly_increasing(sessions@),
            count == period.spec_count(),
            count > 0,
            i <= n,
            i > 0 ==> count >= n,
        decreases n - i,
    {
        let date: i64 = sessions[i];
        match calendar.offset(date, period) {
            Some(terminal) => {
                proof {
                    lemma_index_of_sorted(sessions@, i as int);
                    if i > 0 {
                        assert(false);
                    }
                }
                return Some((date, terminal));
            },
            None => {
                proof {
                    lemma_index_of_sorted(sessions@, i as int);
                }
            },
        }
        i = i + 1;
    }
    None
}

/// A session on the same time of day as `start`, after it and no later than `terminal`.
pub open spec fn day_match(x: i64, start: i64, terminal: i64, day: int) -> bool {
    start < x && x <= terminal && (x as int) % day == (start as int) % day
}

pub open spec fn matching_days(s: Seq<i64>, start: i64, terminal: i64, day: int) -> nat
    decreases s.len(),
{
    if s.len() == 0 {
        0
    } else {
        matching_days(s.drop_last(), start, terminal, day) + if day_match(
            s.last(),
            start,
            terminal,
            day,
        ) {
            1nat
        } else {
            0nat
        }
    }
}

/// `<n>D` for the number of sessions at the start's time of day, when there is one.
pub open spec fn day_count_label(s: Seq<i64>, start: i64, terminal: i64, day: int) -> Option<
    Seq<char>,
> {
    let c = matching_days(s, start, terminal, day);
    if c == 0 {
        None
    } else {
        Some(decimal(c) + seq!['D'])
    }
}

pub open spec fn ms_units(day: int) -> int {
    if day / 86_400_000 > 1 {
        day / 86_400_000
    } else {
        1
    }
}

/// The label of the time from `start` to `terminal`: whole days count matching sessions,
/// otherwise the largest of day, hour, minute, second or millisecond that divides it.
pub open spec fn duration_text(s: Seq<i64>, start: i64, terminal: i64, day: int) -> Option<
    Seq<char>,
> {
    let delta = terminal - start;
    let hour = day / 24;
    let minute = hour / 60;
    let second = minute / 60;
    if delta <= 0 {
        None
    } else if delta >= day && (start as int) % day == (terminal as int) % day {
        day_count_label(s, start, terminal, day)
    } else if delta % day == 0 {
        Some(decimal((delta / day) as nat) + seq!['D'])
    } else if hour > 0 && delta % hour == 0 {
        Some(decimal((delta / hour) as nat) + seq!['h'])
    } else if minute > 0 && delta % minute == 0 {
        Some(decimal((delta / minute) as nat) + seq!['m'])
    } else if second > 0 && delta % second == 0 {
        Some(decimal((delta / second) as nat) + seq!['s'])
    } else {
        Some(decimal((delta / ms_units(day)) as nat) + seq!['m', 's'])
    }
}

/// `<count><suffix>` as a string.
fn count_with_suffix(count: u64, suffix: &str) -> (r: String)
    ensures
        r@ == decimal(count as nat) + suffix@,
{
    let mut s = String::new();
    append_decimal(&mut s, count);
    s.append(suffix);
    assert(s@ =~= decimal(count as nat) + suffix@);
    s
}

/// Counts the sessions at the start's time of day up to `terminal`, labelled in days.
pub fn matching_session_day_label(sessions: &[i64], start: i64, terminal: i64, day_units: i64) -> (r:
    Option<String>)
    requires
        day_units > 0,
    ensures
        match day_count_label(sessions@, start, terminal, day_units as int) {
            Some(t) => r matches Some(x) && x@ == t,
            None => r is None,
        },
{
    let time_of_day: i64 = start.checked_rem_euclid(day_units).unwrap();
    let n: usize = sessions.len();
    let mut count: u64 = 0;
    let mut i: usize = 0;
    while i < n
        invariant
            n == sessions@.len(),
            day_units > 0,
            time_of_day == (start as int) % (day_units as int),
            i <= n,
            count == matching_days(sessions@.subrange(0, i as int), start, terminal, day_units as int),
            count <= i,
        decreases n - i,
    {
        let session: i64 = sessions[i];
        let tod: i64 = session.checked_rem_euclid(day_units).unwrap();
        proof {
            assert(sessions@.subrange(0, i + 1).drop_last() =~= sessions@.subrange(0, i as int));
        }
        if session > start && session <= terminal && tod == time_of_day {
            count = count + 1;
        }
        i = i + 1;
    }
    proof {
        assert(sessions@.subrange(0, n as int) =~= sessions@);
    }
    if count == 0 {
        None
    } else {
        proof {
            reveal_strlit("D");
        }
        Some(count_with_suffix(count, "D"))
    }
}

/// The label of the span from `start` to `terminal` on a calendar measured in `day_units`.
pub fn duration_label(calendar: &TradingCalendar, start: i64, terminal: i64, day_units: i64) -> (r:
    Option<String>)
    requires
        day_units > 0,
        i64::MIN <= terminal - start <= i64::MAX,
    ensures
        match duration_text(calendar@, start, terminal, day_units as int) {
            Some(t) => r matches Some(x) && x@ == t,
            None => r is None,
        },
{
    let delta: i64 = terminal - start;
    if delta <= 0 {
        return None;
    }
    let start_tod: i64 = start.checked_rem_euclid(day_units).unwrap();
    let terminal_tod: i64 = terminal.checked_rem_euclid(day_units).unwrap();
    if delta >= day_units && start_tod == terminal_tod {
        return matching_session_day_label(calendar.sessions(), start, terminal, day_units);
    }
    let hour_units: i64 = day_units / 24;
    let minute_units: i64 = hour_units / 60;
    let second_units: i64 = minute_units / 60;
    proof {
        reveal_strlit("D");
        reveal_strlit("h");
        reveal_strlit("m");
        reveal_strlit("s");
        reveal_strlit("ms");
    }
    if delta % day_units == 0 {
        Some(count_with_suffix((delta / day_units) as u64, "D"))
    } else if hour_units > 0 && delta % hour_units == 0 {
        Some(count_with_suffix((delta / hour_units) as u64, "h"))
    } else if minute_units > 0 && delta % minute_units == 0 {
        Some(count_with_suffix((delta / minute_units) as u64, "m"))
    } else if second_units > 0 && delta % second_units == 0 {
        Some(count_with_suffix((delta / second_units) as u64, "s"))
    } else {
        let per_ms: i64 = day_units / 86_400_000;
        let divisor: i64 = if per_ms > 1 {
            per_ms
        } else {
            1
        };
        Some(count_with_suffix((delta / divisor) as u64, "ms"))
    }
}

/// The label of a forward-return period on a calendar: the plain session count on daily
/// calendars, otherwise the duration the period spans from the first session.
pub open spec fn forward_label(s: Seq<i64>, count: nat, day: int) -> Seq<char> {
    if !subdaily(s, day) {
        period_label(count)
    } else {
        match span_of(s, count) {
            Some(span) => match duration_text(s, span.0, span.1, day) {
                Some(t) => t,
                None => period_label(count),
            },
            None => period_label(count),
        }
    }
}

/// The time from the first session to the one `count` places later fits a 64-bit integer,
/// when the calendar is that long.
pub open spec fn count_span_fits(s: Seq<i64>, count: nat) -> bool {
    count < s.len() ==> s[count as int] - s[0] <= i64::MAX
}

/// The differences that labelling `periods` takes fit 64-bit integers: the gaps between
/// neighbouring sessions, and on a sub-daily calendar the span each period is labelled by.
pub open spec fn labels_fit(s: Seq<i64>, periods: Seq<Period>, day: int) -> bool {
    &&& gaps_fit(s)
    &&& subdaily(s, day) ==> forall|i: int|
        0 <= i < periods.len() ==> #[trigger] count_span_fits(s, periods[i].spec_count() as nat)
}

/// Whether `period_labels` can label these periods on this calendar: see `labels_fit`.
pub fn period_labels_fit(calendar: &TradingCalendar, periods: &[Period], unit: ReportTimeUnit) -> (r:
    bool)
    ensures
        r == labels_fit(calendar@, periods@, day_units_of(unit)),
{
    let sessions = calendar.sessions();
    let n: usize = sessions.len();
    let mut i: usize = 0;
    while n > 0 && i < n - 1
        invariant
            n == sessions@.len(),
            sessions@ == calendar@,
            forall|k: int|
                0 <= k < i && k < n - 1 && sessions@[k + 1] > sessions@[k] ==> #[trigger] sessions@[k
                    + 1] - sessions@[k] <= i64::MAX,
        decreases n - i,
    {
        if sessions[i + 1] > sessions[i] && (sessions[i + 1] as i128) - (sessions[i] as i128)
            > 9223372036854775807i128 {
            assert(!gaps_fit(sessions@));
            return false;
        }
        i = i + 1;
    }
    assert(gaps_fit(sessions@));
    if !has_subdaily_sessions(sessions, units_per_day(unit)) {
        return true;
    }
    let m: usize = periods.len();
    let mut j: usize = 0;
    while j < m
        invariant
            m == periods@.len(),
            n == sessions@.len(),
            sessions@ == calendar@,
            subdaily(calendar@, day_units_of(unit)),
            j <= m,
            forall|k: int| 0 <= k < j ==> #[trigger] count_span_fits(sessions@, periods@[k].spec_count() as nat),
        decreases m - j,
    {
        let count: u32 = periods[j].count();
        if (count as usize) < n && (sessions[count as usize] as i128) - (sessions[0] as i128)
            > 9223372036854775807i128 {
            assert(!count_span_fits(sessions@, periods@[j as int].spec_count() as nat));
            return false;
        }
        j = j + 1;
    }
    true
}

/// The column label of each requested period.
pub fn period_labels(calendar: &TradingCalendar, periods: &[Period], unit: ReportTimeUnit) -> (r:
    Vec<String>)
    requires
        labels_fit(calendar@, periods@, day_units_of(unit)),
    ensures
        r@.len() == periods@.len(),
        forall|i: int|
            0 <= i < periods@.len() ==> #[trigger] r@[i]@ == forward_label(
                calendar@,
                periods@[i].spec_count() as nat,
                day_units_of(unit),
            ),
{
    let day_units: i64 = units_per_day(unit);
    let sessions = calendar.sessions();
    let subdaily_calendar: bool = has_subdaily_sessions(sessions, day_units);
    let n: usize = periods.len();
    let mut out: Vec<String> = Vec::new();
    let mut i: usize = 0;
    while i < n
        invariant
            n == periods@.len(),
            i <= n,
            out@.len() == i,
            sessions@ == calendar@,
            strictly_increasing(sessions@),
            labels_fit(calendar@, periods@, day_units_of(unit)),
            day_units == day_units_of(unit),
            day_units > 0,
            subdaily_calendar == subdaily(calendar@, day_units as int),
            forall|k: int|
                0 <= k < i ==> #[trigger] out@[k]@ == forward_label(
                    calendar@,
                    periods@[k].spec_count() as nat,
                    day_units_of(unit),
                ),
        decreases n - i,
    {
        let period: Period = periods[i];
        let label: String = if !subdaily_calendar {
            period.label()
        } else {
            match period_span(calendar, period) {
                Some(span) => {
                    let (start, terminal) = span;
                    proof {
                        let c = period.spec_count() as int;
                        assert(count_span_fits(calendar@, periods@[i as int].spec_count() as nat));
                        assert(sessions@[0] <= sessions@[c]);
                    }
                    match duration_label(calendar, start, terminal, day_units) {
                        Some(text) => text,
                        None => period.label(),
                    }
                },
                None => period.label(),
            }
        };
        out.push(label);
        i = i + 1;
    }
    out
}


/// The sessions a forward return runs between: it ends `count` sessions after `date`; it
/// starts at `date` when returns are cumulative or the period is one session, otherwise
/// one session before its end.
pub open spec fn window_of(s: Seq<i64>, date: i64, count: nat, cumulative: bool) -> Option<(i64, i64)> {
    match offset_of(s, date, count) {
        None => None,
        Some(end) => if cumulative || count == 1 {
            Some((date, end))
        } else {
            match offset_of(s, date, (count - 1) as nat) {
                Some(start) => Some((start, end)),
                None => None,
            }
        },
    }
}

/// The start and end sessions of the forward return of `period` from `date`.
pub fn forward_window(calendar: &TradingCalendar, date: i64, period: Period, cumulative: bool) -> (r:
    Option<(i64, i64)>)
    ensures
        r == window_of(calendar@, date, period.spec_count() as nat, cumulative),
{
    let end: i64 = match calendar.offset(date, period) {
        Some(e) => e,
        None => {
            return None;
        },
    };
    let count: u32 = period.count();
    if cumulative || count == 1 {
        return Some((date, end));
    }
    match Period::new(count - 1) {
        Ok(shorter) => match calendar.offset(date, shorter) {
            Some(start) => Some((start, end)),
            None => None,
        },
        Err(_) => None,
    }
}

/// A non-cumulative forward return spans exactly one session: its end is the session after
/// its start.
pub proof fn lemma_window_one_session(s: Seq<i64>, date: i64, count: nat)
    requires
        strictly_increasing(s),
        count > 1,
        window_of(s, date, count, false) is Some,
    ensures
        ({
            let w = window_of(s, date, count, false)->0;
            offset_of(s, w.0, 1) == Some(w.1)
        }),
{
    lemma_offset_composes(s, date, (count - 1) as nat, 1);
}

/// A cumulative forward return starts at its own date and ends where the calendar offset
/// leads.
pub proof fn lemma_window_cumulative(s: Seq<i64>, date: i64, count: nat)
    ensures
        window_of(s, date, count, true) == match offset_of(s, date, count) {
            Some(end) => Some((date, end)),
            None => None::<(i64, i64)>,
        },
{
}

} // verus!
