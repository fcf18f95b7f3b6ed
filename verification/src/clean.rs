use vstd::prelude::*;

use crate::sorted::texts;
use crate::text::{
    chars_of, has_prefix, lemma_seq_lt_total, lemma_seq_lt_transitive,
    parse_unsigned, parsed_unsigned, seq_lt, starts_with, str_eq, str_less,
};

verus! {

/// How many rows the cleaning step read and kept, and why it dropped the others.
#[derive(Debug, Clone, Copy, PartialEq, Eq, Structural)]
pub struct LossReport {
    pub input_rows: usize,
    pub output_rows: usize,
    pub forward_return_loss: usize,
    pub quantile_loss: usize,
}

/// One quantized factor row as the join sees it: whether every forward return was found
/// and finite, and its quantile.
#[derive(Debug, Clone, Copy, PartialEq, Eq)]
pub struct JoinRow {
    pub returns_complete: bool,
    pub quantile: Option<u32>,
}

pub open spec fn row_kept(row: JoinRow) -> bool {
    row.returns_complete && row.quantile is Some
}

pub open spec fn count_return_loss(rows: Seq<JoinRow>) -> nat
    decreases rows.len(),
{
    if rows.len() == 0 {
        0
    } else {
        count_return_loss(rows.drop_last()) + if !rows.last().returns_complete {
            1nat
        } else {
            0nat
        }
    }
}

pub open spec fn count_quantile_loss(rows: Seq<JoinRow>) -> nat
    decreases rows.len(),
{
    if rows.len() == 0 {
        0
    } else {
        count_quantile_loss(rows.drop_last()) + if rows.last().quantile is None {
            1nat
        } else {
            0nat
        }
    }
}

pub open spec fn count_kept(rows: Seq<JoinRow>) -> nat
    decreases rows.len(),
{
    if rows.len() == 0 {
        0
    } else {
        count_kept(rows.drop_last()) + if row_kept(rows.last()) {
            1nat
        } else {
            0nat
        }
    }
}

/// Decides which quantized rows survive the join with forward returns and counts the
/// losses: a row needs all its returns and a quantile; a row can count toward both losses.
pub fn join_losses(rows: &[JoinRow]) -> (r: (LossReport, Vec<bool>))
    ensures
        r.0.input_rows == rows@.len(),
        r.0.output_rows == count_kept(rows@),
        r.0.forward_return_loss == count_return_loss(rows@),
        r.0.quantile_loss == count_quantile_loss(rows@),
        r.1@.len() == rows@.len(),
        forall|i: int| 0 <= i < rows@.len() ==> #[trigger] r.1@[i] == row_kept(rows@[i]),
{
    let n: usize = rows.len();
    let mut kept: Vec<bool> = Vec::new();
    let mut output_rows: usize = 0;
    let mut return_loss: usize = 0;
    let mut quantile_loss: usize = 0;
    let mut i: usize = 0;
    while i < n
        invariant
            n == rows@.len(),
            i <= n,
            kept@.len() == i,
            forall|k: int| 0 <= k < i ==> #[trigger] kept@[k] == row_kept(rows@[k]),
            output_rows == count_kept(rows@.subrange(0, i as int)),
            return_loss == count_return_loss(rows@.subrange(0, i as int)),
            quantile_loss == count_quantile_loss(rows@.subrange(0, i as int)),
            output_rows <= i,
            return_loss <= i,
            quantile_loss <= i,
        decreases n - i,
    {
        let row: JoinRow = rows[i];
        proof {
            assert(rows@.subrange(0, i + 1).drop_last() =~= rows@.subrange(0, i as int));
        }
        let lost_returns: bool = !row.returns_complete;
        let lost_quantile: bool = row.quantile.is_none();
        if lost_returns {
            return_loss = return_loss + 1;
        }
        if lost_quantile {
            quantile_loss = quantile_loss + 1;
        }
        let keep: bool = !lost_returns && !lost_quantile;
        if keep {
            output_rows = output_rows + 1;
        }
        kept.push(keep);
        i = i + 1;
    }
    proof {
        assert(rows@.subrange(0, n as int) =~= rows@);
    }
    (
        LossReport {
            input_rows: n,
            output_rows,
            forward_return_loss: return_loss,
            quantile_loss,
        },
        kept,
    )
}

/// `s` ends with `suffix`.
pub open spec fn has_suffix(s: Seq<char>, suffix: Seq<char>) -> bool {
    suffix.len() <= s.len() && s.subrange(s.len() - suffix.len(), s.len() as int) == suffix
}

pub open spec fn scaled(v: Option<nat>, m: nat) -> Option<int> {
    match v {
        Some(x) => Some((x * m) as int),
        None => None,
    }
}

proof fn lemma_suffix_one(s: Seq<char>, c: char)
    ensures
        has_suffix(s, seq![c]) == (s.len() >= 1 && s.last() == c),
{
    if s.len() >= 1 {
        assert(s.subrange(s.len() - 1, s.len() as int)[0] == s.last());
        if s.last() == c {
            assert(s.subrange(s.len() - 1, s.len() as int) =~= seq![c]);
        }
    }
}

proof fn lemma_suffix_two(s: Seq<char>, a: char, b: char)
    ensures
        has_suffix(s, seq![a, b]) == (s.len() >= 2 && s[s.len() - 2] == a && s.last() == b),
{
    if s.len() >= 2 {
        let t = s.subrange(s.len() - 2, s.len() as int);
        assert(t[0] == s[s.len() - 2] && t[1] == s.last());
        if s[s.len() - 2] == a && s.last() == b {
            assert(t =~= seq![a, b]);
        }
    }
}

/// The microseconds a duration label such as `5D`, `30m` or `250ms` stands for. The first
/// unit the label ends with decides how it is read.
pub open spec fn duration_value(label: Seq<char>) -> Option<int> {
    let max = u64::MAX as nat;
    if has_suffix(label, seq!['D']) {
        scaled(parsed_unsigned(label.subrange(0, label.len() - 1), max), 86_400_000_000)
    } else if has_suffix(label, seq!['m', 's']) {
        scaled(parsed_unsigned(label.subrange(0, label.len() - 2), max), 1_000)
    } else if has_suffix(label, seq!['h']) {
        scaled(parsed_unsigned(label.subrange(0, label.len() - 1), max), 3_600_000_000)
    } else if has_suffix(label, seq!['m']) {
        scaled(parsed_unsigned(label.subrange(0, label.len() - 1), max), 60_000_000)
    } else if has_suffix(label, seq!['s']) {
        scaled(parsed_unsigned(label.subrange(0, label.len() - 1), max), 1_000_000)
    } else {
        None
    }
}

/// The duration, in microseconds, that a forward-return column's name stands for.
pub open spec fn forward_duration(name: Seq<char>) -> Option<int> {
    let prefix = "forward_return_"@;
    if has_prefix(name, prefix) {
        duration_value(name.subrange(prefix.len() as int, name.len() as int))
    } else {
        None
    }
}

/// Reads the duration of `chars[start..]` in microseconds.
fn duration_of(chars: &Vec<char>, start: usize) -> (r: Option<u128>)
    requires
        start <= chars@.len(),
    ensures
        match duration_value(chars@.subrange(start as int, chars@.len() as int)) {
            Some(v) => r == Some(v as u128) && 0 <= v <= u128::MAX,
            None => r is None,
        },
{
    let ghost label = chars@.subrange(start as int, chars@.len() as int);
    let n: usize = chars.len();
    let len: usize = n - start;
    proof {
        lemma_suffix_one(label, 'D');
        lemma_suffix_one(label, 'h');
        lemma_suffix_one(label, 'm');
        lemma_suffix_one(label, 's');
        lemma_suffix_two(label, 'm', 's');
        if len >= 1 {
            assert(label.last() == chars@[n - 1]);
        }
        if len >= 2 {
            assert(label[label.len() - 2] == chars@[n - 2]);
        }
    }
    let (cut, multiplier): (usize, u64) = if len >= 1 && chars[n - 1] == 'D' {
        (1, 86_400_000_000)
    } else if len >= 2 && chars[n - 2] == 'm' && chars[n - 1] == 's' {
        (2, 1_000)
    } else if len >= 1 && chars[n - 1] == 'h' {
        (1, 3_600_000_000)
    } else if len >= 1 && chars[n - 1] == 'm' {
        (1, 60_000_000)
    } else if len >= 1 && chars[n - 1] == 's' {
        (1, 1_000_000)
    } else {
        return None;
    };
    proof {
        assert(label.subrange(0, label.len() - cut) =~= chars@.subrange(start as int, n - cut));
        assert(duration_value(label) == scaled(
            parsed_unsigned(chars@.subrange(start as int, n - cut), u64::MAX as nat),
            multiplier as nat,
        ));
    }
    match parse_unsigned(chars, start, n - cut, u64::MAX) {
        Some(v) => {
            let wide: u128 = v as u128;
            let factor: u128 = multiplier as u128;
            assert(wide * factor <= 18446744073709551615u128 * 86_400_000_000u128) by (nonlinear_arith)
                requires
                    wide <= 18446744073709551615u128,
                    factor <= 86_400_000_000u128,
            ;
            Some(wide * factor)
        },
        None => None,
    }
}

/// Whether the duration a `forward_return_<duration>` column stands for, if any, fits 64 bits.
fn forward_duration_fits(name: &str) -> (r: bool)
    ensures
        r == (forward_duration(name@) matches Some(v) ==> v <= u64::MAX),
{
    proof {
        reveal_strlit("forward_return_");
    }
    let chars = chars_of(name);
    if !starts_with(&chars, "forward_return_") {
        return true;
    }
    match duration_of(&chars, 15) {
        Some(v) => v <= 18446744073709551615u128,
        None => true,
    }
}

/// Whether every duration the names stand for fits 64 bits, as `forward_return_columns`
/// needs.
pub fn durations_fit_u64(names: &[String]) -> (r: bool)
    ensures
        r == durations_fit(names@),
{
    let mut i: usize = 0;
    while i < names.len()
        invariant
            i <= names@.len(),
            forall|k: int|
                0 <= k < i ==> (forward_duration(#[trigger] names@[k]@) matches Some(v) ==> v
                    <= u64::MAX),
        decreases names@.len() - i,
    {
        if !forward_duration_fits(names[i].as_str()) {
            return false;
        }
        i = i + 1;
    }
    true
}

/// The duration, in microseconds, of a duration label such as `5D`, `30m` or `250ms`.
pub fn parse_duration_suffix(label: &str) -> (r: Option<u64>)
    requires
        duration_value(label@) matches Some(v) ==> v <= u64::MAX,
    ensures
        match duration_value(label@) {
            Some(v) => r == Some(v as u64),
            None => r is None,
        },
{
    let chars = chars_of(label);
    assert(chars@.subrange(0, chars@.len() as int) =~= label@);
    match duration_of(&chars, 0) {
        Some(v) => Some(v as u64),
        None => None,
    }
}

/// The duration, in microseconds, of a `forward_return_<duration>` column.
pub fn parse_forward_return_duration(name: &str) -> (r: Option<u64>)
    requires
        forward_duration(name@) matches Some(v) ==> v <= u64::MAX,
    ensures
        match forward_duration(name@) {
            Some(v) => r == Some(v as u64),
            None => r is None,
        },
{
    proof {
        reveal_strlit("forward_return_");
    }
    let chars = chars_of(name);
    if !starts_with(&chars, "forward_return_") {
        return None;
    }
    match duration_of(&chars, 15) {
        Some(v) => Some(v as u64),
        None => None,
    }
}


/// Where a forward-return column sorts: by its duration, unreadable names last.
pub open spec fn column_rank(name: Seq<char>) -> int {
    match forward_duration(name) {
        Some(v) => v,
        None => u64::MAX as int,
    }
}

/// Column `a` sorts before column `b`: a shorter duration, or the same and an earlier name.
pub open spec fn column_before(a: Seq<char>, b: Seq<char>) -> bool {
    column_rank(a) < column_rank(b) || (column_rank(a) == column_rank(b) && seq_lt(a, b))
}

pub open spec fn columns_sorted(v: Seq<Seq<char>>) -> bool {
    forall|i: int, j: int| 0 <= i < j < v.len() ==> column_before(#[trigger] v[i], #[trigger] v[j])
}

/// Every duration a name stands for fits 64 bits.
pub open spec fn durations_fit(names: Seq<String>) -> bool {
    forall|i: int|
        0 <= i < names.len() ==> (forward_duration(#[trigger] names[i]@) matches Some(v) ==> v
            <= u64::MAX)
}

proof fn lemma_column_before_transitive(a: Seq<char>, b: Seq<char>, c: Seq<char>)
    requires
        column_before(a, b),
        column_before(b, c),
    ensures
        column_before(a, c),
{
    if column_rank(a) == column_rank(b) && column_rank(b) == column_rank(c) {
        lemma_seq_lt_transitive(a, b, c);
    }
}

fn column_rank_of(name: &str) -> (r: u64)
    requires
        forward_duration(name@) matches Some(v) ==> v <= u64::MAX,
    ensures
        r == column_rank(name@),
{
    match parse_forward_return_duration(name) {
        Some(v) => v,
        None => u64::MAX,
    }
}

/// The forward-return columns among a frame's column names, ordered by duration and then
/// by name.
pub fn forward_return_columns(names: &[String]) -> (r: Vec<String>)
    requires
        durations_fit(names@),
    ensures
        columns_sorted(texts(r@)),
        forall|t: Seq<char>|
            texts(r@).contains(t) <==> (texts(names@).contains(t) && has_prefix(t, forward_prefix_text())),
{
    proof {
        reveal_strlit("forward_return_");
    }
    let n: usize = names.len();
    let mut out: Vec<String> = Vec::new();
    let mut i: usize = 0;
    while i < n
        invariant
            n == names@.len(),
            i <= n,
            durations_fit(names@),
            forward_prefix_text() == "forward_return_"@,
            columns_sorted(texts(out@)),
            forall|t: Seq<char>|
                texts(out@).contains(t) <==> (texts(names@.subrange(0, i as int)).contains(t)
                    && has_prefix(t, forward_prefix_text())),
            forall|k: int|
                0 <= k < out@.len() ==> (forward_duration(#[trigger] out@[k]@) matches Some(v) ==> v
                    <= u64::MAX),
        decreases n - i,
    {
        let ghost pre = texts(names@.subrange(0, i as int));
        let ghost post = texts(names@.subrange(0, i + 1));
        proof {
            assert(post[i as int] == names@[i as int]@);
            assert forall|k: int| 0 <= k < i implies post[k] == pre[k] by {}
            assert(forward_duration(names@[i as int]@) matches Some(v) ==> v <= u64::MAX);
        }
        let name: &String = &names[i];
        let chars = chars_of(name.as_str());
        if starts_with(&chars, "forward_return_") {
            let rank: u64 = column_rank_of(name.as_str());
            let ghost before = texts(out@);
            let mut j: usize = 0;
            let mut searching: bool = true;
            while searching
                invariant
                    j <= out@.len(),
                    texts(out@) == before,
                    rank == column_rank(name@),
                    forall|k: int|
                        0 <= k < out@.len() ==> (forward_duration(#[trigger] out@[k]@) matches Some(v)
                            ==> v <= u64::MAX),
                    forall|k: int| 0 <= k < j ==> column_before(#[trigger] before[k], name@),
                    !searching ==> (j < before.len() ==> !column_before(before[j as int], name@)),
                decreases out@.len() - j + if searching {
                    1int
                } else {
                    0int
                },
            {
                if j < out.len() {
                    assert(before[j as int] == out@[j as int]@);
                    let other: u64 = column_rank_of(out[j].as_str());
                    if other < rank || (other == rank && str_less(out[j].as_str(), name.as_str())) {
                        j = j + 1;
                    } else {
                        searching = false;
                    }
                } else {
                    searching = false;
                }
            }
            assert(j < before.len() ==> before[j as int] == out@[j as int]@);
            if j < out.len() && str_eq(out[j].as_str(), name.as_str()) {
                proof {
                    assert(before[j as int] == name@);
                    assert forall|t: Seq<char>| texts(out@).contains(t) <==> (post.contains(t)
                        && has_prefix(t, forward_prefix_text())) by {
                        if post.contains(t) && !pre.contains(t) {
                            let m = choose|m: int| 0 <= m < post.len() && post[m] == t;
                            if m < i {
                                assert(pre[m] == t);
                            }
                            assert(t == name@);
                        }
                        if pre.contains(t) {
                            let m = choose|m: int| 0 <= m < pre.len() && pre[m] == t;
                            assert(post[m] == t);
                        }
                    }
                }
            } else {
                proof {
                    if j < before.len() {
                        lemma_seq_lt_total(before[j as int], name@);
                        assert(!column_before(before[j as int], name@));
                        assert(column_before(name@, before[j as int]));
                    }
                }
                let copy = name.clone();
                assert(copy@ == name@);
                out.insert(j, copy);
                let ghost after = texts(out@);
                proof {
                    assert forall|k: int| 0 <= k < after.len() implies #[trigger] after[k] == (if k < j {
                        before[k]
                    } else if k == j {
                        name@
                    } else {
                        before[k - 1]
                    }) by {}
                    assert forall|a: int, b: int| 0 <= a < b < after.len() implies column_before(
                        #[trigger] after[a],
                        #[trigger] after[b],
                    ) by {
                        if a < j && b > j {
                            assert(column_before(before[a], before[b - 1]));
                        } else if a == j && b > j {
                            if b - 1 > j {
                                assert(column_before(before[j as int], before[b - 1]));
                                lemma_column_before_transitive(name@, before[j as int], before[b - 1]);
                            }
                        } else if a > j {
                            assert(column_before(before[a - 1], before[b - 1]));
                        }
                    }
                    assert forall|t: Seq<char>| after.contains(t) <==> (post.contains(t) && has_prefix(
                        t,
                        forward_prefix_text(),
                    )) by {
                        if after.contains(t) {
                            let k = choose|k: int| 0 <= k < after.len() && after[k] == t;
                            if k < j {
                                assert(before.contains(t));
                            } else if k > j {
                                assert(before[k - 1] == t);
                                assert(before.contains(t));
                            }
                            if t != name@ {
                                assert(pre.contains(t));
                                let m = choose|m: int| 0 <= m < pre.len() && pre[m] == t;
                                assert(post[m] == t);
                            } else {
                                assert(post[i as int] == t);
                            }
                        }
                        if post.contains(t) && has_prefix(t, forward_prefix_text()) {
                            let m = choose|m: int| 0 <= m < post.len() && post[m] == t;
                            if m < i {
                                assert(pre[m] == t);
                                assert(before.contains(t));
                                let k = choose|k: int| 0 <= k < before.len() && before[k] == t;
                                if k < j {
                                    assert(after[k] == t);
                                } else {
                                    assert(after[k + 1] == t);
                                }
                            } else {
                                assert(after[j as int] == t);
                            }
                        }
                    }
                    assert forall|k: int|
                        0 <= k < out@.len() implies (forward_duration(#[trigger] out@[k]@) matches Some(v)
                        ==> v <= u64::MAX) by {
                        assert(out@[k]@ == after[k]);
                    }
                }
            }
        } else {
            proof {
                assert(!has_prefix(name@, forward_prefix_text()));
                assert forall|t: Seq<char>| texts(out@).contains(t) <==> (post.contains(t) && has_prefix(
                    t,
                    forward_prefix_text(),
                )) by {
                    if post.contains(t) {
                        let m = choose|m: int| 0 <= m < post.len() && post[m] == t;
                        if m < i {
                            assert(pre[m] == t);
                        }
                    }
                    if pre.contains(t) {
                        let m = choose|m: int| 0 <= m < pre.len() && pre[m] == t;
                        assert(post[m] == t);
                    }
                }
            }
        }
        i = i + 1;
    }
    proof {
        assert(names@.subrange(0, n as int) =~= names@);
    }
    out
}

pub open spec fn forward_prefix_text() -> Seq<char> {
    "forward_return_"@
}


/// The rows the join drops are those that lost their returns or their quantile: each loss
/// counts no more than the rows dropped, and together they count at least as many.
pub proof fn lemma_join_counts(rows: Seq<JoinRow>)
    ensures
        count_kept(rows) <= rows.len(),
        count_return_loss(rows) <= rows.len() - count_kept(rows),
        count_quantile_loss(rows) <= rows.len() - count_kept(rows),
        rows.len() - count_kept(rows) <= count_return_loss(rows) + count_quantile_loss(rows),
    decreases rows.len(),
{
    if rows.len() > 0 {
        lemma_join_counts(rows.drop_last());
    }
}

} // verus!
