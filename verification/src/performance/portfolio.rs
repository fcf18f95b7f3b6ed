use vstd::prelude::*;

use crate::error::FerricAlphaError;
use crate::report::metadata::FactorKey;
use crate::report::options::period_label_result;
use crate::sorted::texts;
use crate::text::{chars_of, parse_unsigned, str_eq};

verus! {

/// Checks the period label of a return series: a positive daily count such as `5D`.
pub fn validate_period_label(period: &str) -> (r: Result<(), FerricAlphaError>)
    ensures
        period_label_result(period@) is Ok ==> r is Ok,
        period_label_result(period@) is Err ==> r == Err::<(), FerricAlphaError>(
            FerricAlphaError::InvalidInput {
                operation: "cumulative_returns",
                reason: "period must be a positive daily count",
            },
        ),
{
    let chars = chars_of(period);
    let n: usize = chars.len();
    let mut valid: bool = false;
    if n >= 2 && chars[n - 1] == 'D' && chars[0] != '0' {
        proof {
            assert(chars@.subrange(0, n - 1) =~= period@.drop_last());
        }
        match parse_unsigned(&chars, 0, n - 1, 4294967295) {
            Some(v) => {
                valid = v > 0;
            },
            None => {},
        }
    }
    if valid {
        Ok(())
    } else {
        Err(
            FerricAlphaError::InvalidInput {
                operation: "cumulative_returns",
                reason: "period must be a positive daily count",
            },
        )
    }
}

/// A requested quantile selection: non-empty, positive and without repeats.
pub open spec fn quantile_filter_ok(values: Seq<u32>) -> bool {
    values.len() > 0 && values.no_duplicates() && !values.contains(0)
}

/// A requested group selection: non-empty, without empty names and without repeats.
pub open spec fn group_filter_ok(values: Seq<Seq<char>>) -> bool {
    values.len() > 0 && values.no_duplicates() && forall|i: int|
        0 <= i < values.len() ==> #[trigger] values[i].len() > 0
}

/// Checks an optional selection of quantiles.
pub fn validate_quantile_filter(values: Option<&[u32]>) -> (r: Result<Option<Vec<u32>>, FerricAlphaError>)
    ensures
        match values {
            None => r matches Ok(None),
            Some(vs) => if quantile_filter_ok(vs@) {
                r matches Ok(Some(sel)) && sel@ == vs@
            } else {
                r == Err::<Option<Vec<u32>>, FerricAlphaError>(
                    FerricAlphaError::InvalidOption {
                        option: "quantiles",
                        reason: "quantiles must be positive and unique",
                    },
                )
            },
        },
{
    let vs = match values {
        None => {
            return Ok(None);
        },
        Some(vs) => vs,
    };
    let n: usize = vs.len();
    let mut ok: bool = n > 0;
    let mut selected: Vec<u32> = Vec::new();
    let mut i: usize = 0;
    while i < n
        invariant
            n == vs@.len(),
            i <= n,
            selected@ == vs@.subrange(0, i as int),
            ok == (n > 0 && vs@.subrange(0, i as int).no_duplicates() && !vs@.subrange(
                0,
                i as int,
            ).contains(0)),
        decreases n - i,
    {
        let v: u32 = vs[i];
        let mut seen: bool = false;
        let mut j: usize = 0;
        while j < i
            invariant
                i < n,
                n == vs@.len(),
                j <= i,
                seen == exists|k: int| 0 <= k < j && vs@[k] == v,
            decreases i - j,
        {
            if vs[j] == v {
                seen = true;
            }
            j = j + 1;
        }
        let ghost pre = vs@.subrange(0, i as int);
        let ghost post = vs@.subrange(0, i + 1);
        proof {
            assert(post =~= pre.push(v));
            assert(seen == pre.contains(v)) by {
                if seen {
                    let k = choose|k: int| 0 <= k < i && vs@[k] == v;
                    assert(pre[k] == v);
                }
                if pre.contains(v) {
                    let k = choose|k: int| 0 <= k < pre.len() && pre[k] == v;
                    assert(vs@[k] == v);
                }
            }
            assert(post.no_duplicates() == (pre.no_duplicates() && !pre.contains(v))) by {
                if post.no_duplicates() {
                    assert forall|a: int, b: int| 0 <= a < b < pre.len() implies pre[a] != pre[b] by {
                        assert(post[a] == pre[a] && post[b] == pre[b]);
                    }
                    if pre.contains(v) {
                        let k = choose|k: int| 0 <= k < pre.len() && pre[k] == v;
                        assert(post[k] == post[i as int]);
                    }
                }
                if pre.no_duplicates() && !pre.contains(v) {
                    assert forall|a: int, b: int| 0 <= a < b < post.len() implies post[a] != post[b] by {
                        if b == i {
                            assert(pre.contains(post[a]));
                        } else {
                            assert(post[a] == pre[a] && post[b] == pre[b]);
                        }
                    }
                }
            }
            assert(post.contains(0) == (pre.contains(0) || v == 0)) by {
                if post.contains(0) {
                    let k = choose|k: int| 0 <= k < post.len() && post[k] == 0;
                    if k < i {
                        assert(pre[k] == 0);
                    }
                }
                if pre.contains(0) {
                    let k = choose|k: int| 0 <= k < pre.len() && pre[k] == 0;
                    assert(post[k] == 0);
                }
                if v == 0 {
                    assert(post[i as int] == 0);
                }
            }
        }
        if seen || v == 0 {
            ok = false;
        }
        selected.push(v);
        i = i + 1;
    }
    proof {
        assert(vs@.subrange(0, n as int) =~= vs@);
    }
    if !ok {
        return Err(
            FerricAlphaError::InvalidOption {
                option: "quantiles",
                reason: "quantiles must be positive and unique",
            },
        );
    }
    Ok(Some(selected))
}

/// Checks an optional selection of groups.
pub fn validate_group_filter(values: Option<&[String]>) -> (r: Result<Option<Vec<String>>, FerricAlphaError>)
    ensures
        match values {
            None => r matches Ok(None),
            Some(vs) => if group_filter_ok(texts(vs@)) {
                r matches Ok(Some(sel)) && texts(sel@) == texts(vs@)
            } else {
                r == Err::<Option<Vec<String>>, FerricAlphaError>(
                    FerricAlphaError::InvalidOption {
                        option: "groups",
                        reason: "groups must be non-empty and unique",
                    },
                )
            },
        },
{
    let vs = match values {
        None => {
            return Ok(None);
        },
        Some(vs) => vs,
    };
    let ghost t = texts(vs@);
    let n: usize = vs.len();
    let mut ok: bool = n > 0;
    let mut selected: Vec<String> = Vec::new();
    let mut i: usize = 0;
    while i < n
        invariant
            n == vs@.len(),
            t == texts(vs@),
            i <= n,
            texts(selected@) == t.subrange(0, i as int),
            ok == (n > 0 && t.subrange(0, i as int).no_duplicates() && forall|k: int|
                0 <= k < i ==> #[trigger] t[k].len() > 0),
        decreases n - i,
    {
        let mut seen: bool = false;
        let mut j: usize = 0;
        while j < i
            invariant
                i < n,
                n == vs@.len(),
                t == texts(vs@),
                j <= i,
                seen == exists|k: int| 0 <= k < j && t[k] == t[i as int],
            decreases i - j,
        {
            proof {
                assert(t[j as int] == vs@[j as int]@ && t[i as int] == vs@[i as int]@);
            }
            if str_eq(vs[j].as_str(), vs[i].as_str()) {
                seen = true;
            }
            j = j + 1;
        }
        let empty: bool = chars_of(vs[i].as_str()).len() == 0;
        let ghost pre = t.subrange(0, i as int);
        let ghost post = t.subrange(0, i + 1);
        let ghost v = t[i as int];
        proof {
            assert(post =~= pre.push(v));
            assert(seen == pre.contains(v)) by {
                if seen {
                    let k = choose|k: int| 0 <= k < i && t[k] == v;
                    assert(pre[k] == v);
                }
                if pre.contains(v) {
                    let k = choose|k: int| 0 <= k < pre.len() && pre[k] == v;
                    assert(t[k] == v);
                }
            }
            assert(post.no_duplicates() == (pre.no_duplicates() && !pre.contains(v))) by {
                if post.no_duplicates() {
                    assert forall|a: int, b: int| 0 <= a < b < pre.len() implies pre[a] != pre[b] by {
                        assert(post[a] == pre[a] && post[b] == pre[b]);
                    }
                    if pre.contains(v) {
                        let k = choose|k: int| 0 <= k < pre.len() && pre[k] == v;
                        assert(post[k] == post[i as int]);
                    }
                }
                if pre.no_duplicates() && !pre.contains(v) {
                    assert forall|a: int, b: int| 0 <= a < b < post.len() implies post[a] != post[b] by {
                        if b == i {
                            assert(pre.contains(post[a]));
                        } else {
                            assert(post[a] == pre[a] && post[b] == pre[b]);
                        }
                    }
                }
            }
        }
        if seen || empty {
            ok = false;
        }
        selected.push(vs[i].clone());
        proof {
            assert(texts(selected@) =~= post);
        }
        i = i + 1;
    }
    proof {
        assert(t.subrange(0, n as int) =~= t);
    }
    if !ok {
        return Err(
            FerricAlphaError::InvalidOption {
                option: "groups",
                reason: "groups must be non-empty and unique",
            },
        );
    }
    Ok(Some(selected))
}


/// A row is kept when its quantile and group are among those selected (no selection keeps all).
pub open spec fn row_selected(
    row: FactorKey,
    quantiles: Option<Seq<u32>>,
    groups: Option<Seq<Seq<char>>>,
) -> bool {
    &&& match quantiles {
        None => true,
        Some(qs) => row.quantile matches Some(q) && qs.contains(q),
    }
    &&& match groups {
        None => true,
        Some(gs) => row.group matches Some(g) && gs.contains(g@),
    }
}

/// The row's quantile is one of the listed quantiles, at some position of the list (any
/// quantile when none are listed).
pub open spec fn quantile_listed(row: FactorKey, quantiles: Option<Vec<u32>>) -> bool {
    match quantiles {
        None => true,
        Some(qs) => exists|j: int| 0 <= j < qs@.len() && row.quantile == Some(#[trigger] qs@[j]),
    }
}

/// The row's group is one of the listed groups, at some position of the list (any group
/// when none are listed).
pub open spec fn group_listed(row: FactorKey, groups: Option<Vec<String>>) -> bool {
    match groups {
        None => true,
        Some(gs) => match row.group {
            Some(g) => exists|b: int| 0 <= b < gs@.len() && (#[trigger] gs@[b])@ == g@,
            None => false,
        },
    }
}

proof fn lemma_selected_iff_listed(
    row: FactorKey,
    quantiles: Option<Vec<u32>>,
    groups: Option<Vec<String>>,
)
    ensures
        row_selected(row, quantile_selection(quantiles), group_selection(groups)) == (
        quantile_listed(row, quantiles) && group_listed(row, groups)),
{
    match quantiles {
        Some(qs) => {
            if let Some(q) = row.quantile {
                if qs@.contains(q) {
                    let j = choose|j: int| 0 <= j < qs@.len() && qs@[j] == q;
                    assert(row.quantile == Some(qs@[j]));
                }
            }
        },
        None => {},
    }
    match groups {
        Some(gs) => {
            if let Some(g) = row.group {
                if texts(gs@).contains(g@) {
                    let b = choose|b: int| 0 <= b < texts(gs@).len() && texts(gs@)[b] == g@;
                    assert(gs@[b]@ == g@);
                }
                if exists|b: int| 0 <= b < gs@.len() && (#[trigger] gs@[b])@ == g@ {
                    let b = choose|b: int| 0 <= b < gs@.len() && (#[trigger] gs@[b])@ == g@;
                    assert(texts(gs@)[b] == g@);
                }
            }
        },
        None => {},
    }
}

pub open spec fn quantile_selection(sel: Option<Vec<u32>>) -> Option<Seq<u32>> {
    match sel {
        Some(v) => Some(v@),
        None => None,
    }
}

pub open spec fn group_selection(sel: Option<Vec<String>>) -> Option<Seq<Seq<char>>> {
    match sel {
        Some(v) => Some(texts(v@)),
        None => None,
    }
}

/// Whether a list of numbers holds `x`.
fn holds_u32(v: &Vec<u32>, x: u32) -> (r: bool)
    ensures
        r == v@.contains(x),
{
    let mut i: usize = 0;
    while i < v.len()
        invariant
            i <= v@.len(),
            forall|k: int| 0 <= k < i ==> v@[k] != x,
        decreases v@.len() - i,
    {
        if v[i] == x {
            assert(v@[i as int] == x);
            return true;
        }
        i = i + 1;
    }
    false
}

/// Whether a list of strings holds the text of `x`.
fn holds_text(v: &Vec<String>, x: &str) -> (r: bool)
    ensures
        r == texts(v@).contains(x@),
{
    let ghost t = texts(v@);
    let mut i: usize = 0;
    while i < v.len()
        invariant
            i <= v@.len(),
            t == texts(v@),
            forall|k: int| 0 <= k < i ==> t[k] != x@,
        decreases v@.len() - i,
    {
        assert(t[i as int] == v@[i as int]@);
        if str_eq(v[i].as_str(), x) {
            return true;
        }
        i = i + 1;
    }
    false
}

/// Marks the rows that a portfolio holds; selecting nothing is refused.
pub fn select_rows(
    rows: &[FactorKey],
    quantiles: &Option<Vec<u32>>,
    groups: &Option<Vec<String>>,
) -> (r: Result<Vec<bool>, FerricAlphaError>)
    ensures
        match r {
            Ok(mask) => mask@.len() == rows@.len() && (forall|i: int|
                0 <= i < rows@.len() ==> #[trigger] mask@[i] == row_selected(
                    rows@[i],
                    quantile_selection(*quantiles),
                    group_selection(*groups),
                )) && exists|i: int| 0 <= i < rows@.len() && #[trigger] mask@[i],
            Err(e) => e == FerricAlphaError::InsufficientData { operation: "portfolio filter" }
                && forall|i: int|
                0 <= i < rows@.len() ==> !row_selected(
                    #[trigger] rows@[i],
                    quantile_selection(*quantiles),
                    group_selection(*groups),
                ),
        },
        r matches Ok(mask) ==> forall|i: int|
            0 <= i < rows@.len() ==> (#[trigger] mask@[i] <==> quantile_listed(rows@[i], *quantiles)
                && group_listed(rows@[i], *groups)),
        (exists|i: int|
            0 <= i < rows@.len() && quantile_listed(#[trigger] rows@[i], *quantiles) && group_listed(
                rows@[i],
                *groups,
            )) ==> r is Ok,
{
    let n: usize = rows.len();
    let mut mask: Vec<bool> = Vec::new();
    let mut any: bool = false;
    let mut i: usize = 0;
    while i < n
        invariant
            n == rows@.len(),
            i <= n,
            mask@.len() == i,
            forall|k: int|
                0 <= k < i ==> #[trigger] mask@[k] == row_selected(
                    rows@[k],
                    quantile_selection(*quantiles),
                    group_selection(*groups),
                ),
            any == exists|k: int| 0 <= k < i && #[trigger] mask@[k],
        decreases n - i,
    {
        let row = &rows[i];
        let quantile_ok: bool = match quantiles {
            None => true,
            Some(qs) => match row.quantile {
                Some(q) => holds_u32(qs, q),
                None => false,
            },
        };
        let group_ok: bool = match groups {
            None => true,
            Some(gs) => match &row.group {
                Some(g) => holds_text(gs, g.as_str()),
                None => false,
            },
        };
        let keep: bool = quantile_ok && group_ok;
        let ghost before = mask@;
        mask.push(keep);
        proof {
            assert(mask@ == before.push(keep));
            assert(forall|k: int| 0 <= k < i ==> mask@[k] == before[k]);
            assert(mask@[i as int] == keep);
            if any {
                let k = choose|k: int| 0 <= k < i && #[trigger] before[k];
                assert(mask@[k]);
            }
            if !keep && !any {
                assert forall|k: int| 0 <= k < i + 1 implies !#[trigger] mask@[k] by {
                    if k < i {
                        assert(mask@[k] == before[k]);
                    }
                }
            }
        }
        if keep {
            any = true;
        }
        i = i + 1;
    }
    if !any {
        proof {
            assert forall|k: int| 0 <= k < n implies !row_selected(
                #[trigger] rows@[k],
                quantile_selection(*quantiles),
                group_selection(*groups),
            ) by {
                assert(mask@[k] == row_selected(
                    rows@[k],
                    quantile_selection(*quantiles),
                    group_selection(*groups),
                ));
            }
        }
        proof {
            assert forall|k: int|
                0 <= k < n implies !(quantile_listed(#[trigger] rows@[k], *quantiles) && group_listed(
                rows@[k],
                *groups,
            )) by {
                lemma_selected_iff_listed(rows@[k], *quantiles, *groups);
            }
        }
        return Err(FerricAlphaError::InsufficientData { operation: "portfolio filter" });
    }
    proof {
        assert(forall|k: int|
            0 <= k < n ==> (#[trigger] mask@[k] <==> quantile_listed(rows@[k], *quantiles)
                && group_listed(rows@[k], *groups))) by {
            assert forall|k: int| 0 <= k < n implies (#[trigger] mask@[k] <==> quantile_listed(
                rows@[k],
                *quantiles,
            ) && group_listed(rows@[k], *groups)) by {
                lemma_selected_iff_listed(rows@[k], *quantiles, *groups);
            }
        }
        assert(i == n);
        assert(exists|k: int| 0 <= k < rows@.len() && #[trigger] mask@[k]);
    }
    Ok(mask)
}

} // verus!
