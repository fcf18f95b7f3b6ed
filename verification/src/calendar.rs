use vstd::prelude::*;

use crate::error::FerricAlphaError;
use crate::text::{append_decimal, decimal};

verus! {

/// A positive number of trading sessions.
#[derive(Debug, Clone, Copy, PartialEq, Eq, Structural, PartialOrd, Ord, Hash)]
pub struct Period {
    count: u32,
}

/// The label of a period of `count` sessions, such as `5D`.
pub open spec fn period_label(count: nat) -> Seq<char> {
    decimal(count) + seq!['D']
}

impl Period {
    pub closed spec fn spec_count(self) -> u32 {
        self.count
    }

    /// The period of `count` sessions.
    pub closed spec fn of_count(count: u32) -> Period {
        Period { count }
    }

    /// A period is the period of its count, and the period of a count has that count: two
    /// periods are equal exactly when their counts are.
    pub proof fn lemma_count_determines(a: Period, b: Period, count: u32)
        ensures
            Period::of_count(count).spec_count() == count,
            a == Period::of_count(a.spec_count()),
            (a == b) <==> (a.spec_count() == b.spec_count()),
            forall|c1: u32, c2: u32|
                (#[trigger] Period::of_count(c1) == #[trigger] Period::of_count(c2)) <==> c1 == c2,
    {
        assert forall|c1: u32, c2: u32|
            (#[trigger] Period::of_count(c1) == #[trigger] Period::of_count(c2)) implies c1 == c2 by {
            assert(Period::of_count(c1).count == Period::of_count(c2).count);
        }
    }

    #[verifier::type_invariant]
    spec fn positive(self) -> bool {
        self.count > 0
    }

    /// A period of `count` sessions; zero is refused.
    pub fn new(count: u32) -> (r: Result<Period, FerricAlphaError>)
        ensures
            count == 0 ==> r == Err::<Period, FerricAlphaError>(
                FerricAlphaError::InvalidPeriod { count },
            ),
            count > 0 ==> (r matches Ok(p) && p.spec_count() == count),
            count > 0 ==> r == Ok::<Period, FerricAlphaError>(Period::of_count(count)),
    {
        if count == 0 {
            return Err(FerricAlphaError::InvalidPeriod { count });
        }
        Ok(Period { count })
    }

    pub fn count(self) -> (r: u32)
        ensures
            r == self.spec_count(),
            r > 0,
    {
        proof {
            use_type_invariant(&self);
        }
        self.count
    }

    /// The label `<count>D`.
    pub fn label(self) -> (r: String)
        ensures
            r@ == period_label(self.spec_count() as nat),
    {
        let mut s = String::new();
        append_decimal(&mut s, self.count as u64);
        proof {
            reveal_strlit("D");
        }
        s.append("D");
        assert(s@ =~= period_label(self.spec_count() as nat));
        s
    }
}


/// Sessions in strictly increasing order.
pub open spec fn strictly_increasing(s: Seq<i64>) -> bool {
    forall|i: int, j: int| 0 <= i < j < s.len() ==> s[i] < s[j]
}

/// The session `count` places after `date`, when `date` is a session and the calendar
/// reaches that far.
pub open spec fn offset_of(s: Seq<i64>, date: i64, count: nat) -> Option<i64> {
    if s.contains(date) && s.index_of(date) + count < s.len() {
        Some(s[s.index_of(date) + count])
    } else {
        None
    }
}

/// Where a calendar breaks strict order first: `i` is the first position whose session
/// does not come after the one before it.
pub open spec fn first_break(s: Seq<i64>, i: int) -> bool {
    &&& 1 <= i < s.len()
    &&& strictly_increasing(s.subrange(0, i))
    &&& s[i - 1] >= s[i]
}

/// A sorted calendar of unique trading sessions, with the timezone its dates are read in.
#[derive(Debug, PartialEq, Eq)]
pub struct TradingCalendar {
    sessions: Vec<i64>,
    timezone: Option<String>,
}

impl Clone for TradingCalendar {
    fn clone(&self) -> (r: Self)
        ensures
            r@ == self@,
            r.spec_timezone() == self.spec_timezone(),
    {
        proof {
            use_type_invariant(self);
        }
        let mut sessions: Vec<i64> = Vec::new();
        let mut i: usize = 0;
        while i < self.sessions.len()
            invariant
                i <= self.sessions@.len(),
                sessions@ == self.sessions@.subrange(0, i as int),
            decreases self.sessions@.len() - i,
        {
            sessions.push(self.sessions[i]);
            i = i + 1;
        }
        assert(sessions@ =~= self.sessions@);
        let timezone: Option<String> = match &self.timezone {
            Some(name) => Some(name.clone()),
            None => None,
        };
        TradingCalendar { sessions, timezone }
    }
}

impl View for TradingCalendar {
    type V = Seq<i64>;

    closed spec fn view(&self) -> Seq<i64> {
        self.sessions@
    }
}

impl TradingCalendar {
    #[verifier::type_invariant]
    spec fn sorted_unique(self) -> bool {
        strictly_increasing(self.sessions@)
    }

    pub closed spec fn spec_timezone(self) -> Option<String> {
        self.timezone
    }

    /// Builds a calendar; the sessions must be strictly increasing. The first position
    /// that breaks the order decides the error: a session before its predecessor is
    /// unsorted, one equal to it is a duplicate.
    pub fn new(sessions: Vec<i64>, timezone: Option<String>) -> (r: Result<
        TradingCalendar,
        FerricAlphaError,
    >)
        ensures
            r is Ok <==> strictly_increasing(sessions@),
            r matches Ok(c) ==> c@ == sessions@ && c.spec_timezone() == timezone,
            r matches Err(e) ==> exists|i: int|
                #![trigger first_break(sessions@, i)]
                first_break(sessions@, i) && e == (if sessions@[i - 1] > sessions@[i] {
                    FerricAlphaError::UnsortedSessions
                } else {
                    FerricAlphaError::DuplicateSession
                }),
    {
        let n: usize = sessions.len();
        let mut i: usize = 1;
        while i < n
            invariant
                n == sessions@.len(),
                1 <= i,
                i <= n || n == 0,
                strictly_increasing(sessions@.subrange(0, if n == 0 { 0 } else { i as int })),
            decreases n - i,
        {
            if sessions[i - 1] > sessions[i] {
                assert(first_break(sessions@, i as int));
                return Err(FerricAlphaError::UnsortedSessions);
            }
            if sessions[i - 1] == sessions[i] {
                assert(first_break(sessions@, i as int));
                return Err(FerricAlphaError::DuplicateSession);
            }
            proof {
                let t = sessions@.subrange(0, i + 1);
                assert forall|a: int, b: int| 0 <= a < b < t.len() implies t[a] < t[b] by {
                    if b < i {
                        assert(sessions@.subrange(0, i as int)[a] == t[a]);
                        assert(sessions@.subrange(0, i as int)[b] == t[b]);
                    } else if a < i - 1 {
                        assert(sessions@.subrange(0, i as int)[a] == t[a]);
                        assert(sessions@.subrange(0, i as int)[i - 1] == t[i - 1]);
                    }
                }
            }
            i = i + 1;
        }
        proof {
            if n > 0 {
                assert(sessions@.subrange(0, n as int) =~= sessions@);
            }
        }
        Ok(TradingCalendar { sessions, timezone })
    }

    /// The session `period` places after `date`; `None` when `date` is not a session or
    /// the calendar ends first.
    pub fn offset(&self, date: i64, period: Period) -> (r: Option<i64>)
        ensures
            r == offset_of(self@, date, period.spec_count() as nat),
    {
        proof {
            use_type_invariant(self);
        }
        let count: u32 = period.count();
        let n: usize = self.sessions.len();
        let mut lo: usize = 0;
        let mut hi: usize = n;
        while lo < hi
            invariant
                n == self.sessions@.len(),
                count == period.spec_count(),
                strictly_increasing(self.sessions@),
                lo <= hi <= n,
                forall|k: int| 0 <= k < lo ==> self.sessions@[k] < date,
                forall|k: int| hi <= k < n ==> self.sessions@[k] > date,
            decreases hi - lo,
        {
            let mid: usize = lo + (hi - lo) / 2;
            let value: i64 = self.sessions[mid];
            if value == date {
                proof {
                    lemma_index_of_sorted(self.sessions@, mid as int);
                    assert(self@ == self.sessions@);
                    assert(self.sessions@.index_of(date) == mid);
                }
                if (count as usize) < n - mid {
                    let v: i64 = self.sessions[mid + count as usize];
                    assert(offset_of(self@, date, count as nat) == Some(v));
                    return Some(v);
                }
                assert(offset_of(self@, date, count as nat) is None);
                return None;
            } else if value < date {
                lo = mid + 1;
            } else {
                hi = mid;
            }
        }
        proof {
            assert(!self.sessions@.contains(date)) by {
                if self.sessions@.contains(date) {
                    let k = choose|k: int| 0 <= k < n && self.sessions@[k] == date;
                    assert(self.sessions@[k] == date);
                }
            }
        }
        None
    }

    pub fn timezone(&self) -> (r: Option<&str>)
        ensures
            match self.spec_timezone() {
                Some(t) => r matches Some(z) && z@ == t@,
                None => r is None,
            },
    {
        match &self.timezone {
            Some(t) => Some(t.as_str()),
            None => None,
        }
    }

    /// The sessions, in increasing order.
    pub fn sessions(&self) -> (r: &[i64])
        ensures
            r@ == self@,
            strictly_increasing(r@),
    {
        proof {
            use_type_invariant(self);
        }
        self.sessions.as_slice()
    }
}

/// In a strictly increasing sequence, a value's position is the one it stands at.
pub proof fn lemma_index_of_sorted(s: Seq<i64>, k: int)
    requires
        strictly_increasing(s),
        0 <= k < s.len(),
    ensures
        s.contains(s[k]),
        s.index_of(s[k]) == k,
{
    assert(s[k] == s[k]);
    let j = s.index_of(s[k]);
    assert(s.contains(s[k]));
    assert(s[j] == s[k]);
    if j < k {
        assert(s[j] < s[k]);
    } else if j > k {
        assert(s[k] < s[j]);
    }
}

/// Moving `a` sessions and then `b` more is moving `a + b` sessions.
pub proof fn lemma_offset_composes(s: Seq<i64>, date: i64, a: nat, b: nat)
    requires
        strictly_increasing(s),
    ensures
        offset_of(s, date, a + b) == match offset_of(s, date, a) {
            Some(mid) => offset_of(s, mid, b),
            None => None::<i64>,
        },
{
    if s.contains(date) {
        let k = s.index_of(date);
        lemma_index_of_sorted(s, k);
        if k + a < s.len() {
            lemma_index_of_sorted(s, k + a);
        }
    }
}

/// An offset session lies strictly after the date it starts from, unless it is the date itself.
pub proof fn lemma_offset_moves_forward(s: Seq<i64>, date: i64, count: nat)
    requires
        strictly_increasing(s),
        count > 0,
    ensures
        offset_of(s, date, count) matches Some(v) ==> v > date,
{
    if s.contains(date) {
        let k = s.index_of(date);
        lemma_index_of_sorted(s, k);
    }
}

/// Checks a list of requested periods: at least one, with no period named twice. The
/// periods come back in increasing order.
pub fn validate_periods(periods: &[Period]) -> (r: Result<Vec<Period>, FerricAlphaError>)
    ensures
        periods@.len() == 0 ==> r == Err::<Vec<Period>, FerricAlphaError>(
            FerricAlphaError::InsufficientData { operation: "periods" },
        ),
        periods@.len() > 0 && !periods@.no_duplicates() ==> r == Err::<
            Vec<Period>,
            FerricAlphaError,
        >(FerricAlphaError::DuplicatePeriod),
        periods@.len() > 0 && periods@.no_duplicates() ==> r is Ok,
        r matches Ok(v) ==> {
            &&& v@.len() == periods@.len()
            &&& forall|i: int, j: int|
                0 <= i < j < v@.len() ==> v@[i].spec_count() < v@[j].spec_count()
            &&& forall|p: Period| v@.contains(p) <==> periods@.contains(p)
        },
{
    if periods.len() == 0 {
        return Err(FerricAlphaError::InsufficientData { operation: "periods" });
    }
    let n: usize = periods.len();
    let mut out: Vec<Period> = Vec::new();
    let mut i: usize = 0;
    while i < n
        invariant
            n == periods@.len(),
            i <= n,
            out@.len() == i,
            periods@.subrange(0, i as int).no_duplicates(),
            forall|a: int, b: int| 0 <= a < b < out@.len() ==> out@[a].count < out@[b].count,
            forall|p: Period| out@.contains(p) <==> periods@.subrange(0, i as int).contains(p),
        decreases n - i,
    {
        let p: Period = periods[i];
        let mut j: usize = 0;
        while j < out.len() && out[j].count < p.count
            invariant
                j <= out@.len(),
                forall|k: int| 0 <= k < j ==> out@[k].count < p.count,
            decreases out@.len() - j,
        {
            j = j + 1;
        }
        if j < out.len() && out[j].count == p.count {
            proof {
                assert(out@[j as int] == p);
                assert(out@.contains(p));
                assert(periods@.subrange(0, i as int).contains(p));
                let k = choose|k: int| 0 <= k < i && periods@.subrange(0, i as int)[k] == p;
                assert(periods@[k] == periods@[i as int]);
            }
            return Err(FerricAlphaError::DuplicatePeriod);
        }
        let ghost old_out = out@;
        out.insert(j, p);
        proof {
            assert(!old_out.contains(p)) by {
                if old_out.contains(p) {
                    let k = choose|k: int| 0 <= k < old_out.len() && old_out[k] == p;
                    if k < j {
                    } else {
                        assert(old_out[j as int].count <= old_out[k].count);
                    }
                }
            }
            let pre = periods@.subrange(0, i as int);
            let post = periods@.subrange(0, i + 1);
            assert(post =~= pre.push(p));
            assert(out@ == old_out.insert(j as int, p));
            assert forall|q: Period| out@.contains(q) implies post.contains(q) by {
                let k = choose|k: int| 0 <= k < out@.len() && out@[k] == q;
                if k < j {
                    assert(old_out[k] == q);
                    assert(old_out.contains(q));
                    assert(pre.contains(q));
                    let m = choose|m: int| 0 <= m < pre.len() && pre[m] == q;
                    assert(post[m] == q);
                } else if k > j {
                    assert(old_out[k - 1] == q);
                    assert(old_out.contains(q));
                    assert(pre.contains(q));
                    let m = choose|m: int| 0 <= m < pre.len() && pre[m] == q;
                    assert(post[m] == q);
                } else {
                    assert(post[i as int] == q);
                }
            }
            assert forall|q: Period| post.contains(q) implies out@.contains(q) by {
                if post.contains(q) {
                    let k = choose|k: int| 0 <= k < post.len() && post[k] == q;
                    if k == i {
                        assert(out@[j as int] == q);
                    } else {
                        assert(pre[k] == q);
                        assert(old_out.contains(q));
                        let m = choose|m: int| 0 <= m < old_out.len() && old_out[m] == q;
                        if m < j {
                            assert(out@[m] == q);
                        } else {
                            assert(out@[m + 1] == q);
                        }
                    }
                }
            }
            assert forall|a: int, b: int| 0 <= a < b < post.len() implies post[a] != post[b] by {
                if b == i {
                    assert(pre.contains(post[a]));
                } else {
                    assert(pre[a] == post[a] && pre[b] == post[b]);
                }
            }
        }
        i = i + 1;
    }
    proof {
        assert(periods@.subrange(0, n as int) =~= periods@);
    }
    Ok(out)
}

} // verus!
