use vstd::prelude::*;

use crate::calendar::period_label;
use crate::error::FerricAlphaError;
use crate::text::{append_decimal, chars_of, has_prefix, parse_unsigned, parsed_unsigned, starts_with};

verus! {

/// A column of a frame as the period discovery sees it.
#[derive(Debug, Clone)]
pub struct ColumnInfo {
    pub name: String,
    pub is_float64: bool,
    pub dtype: String,
}

/// A forward-return column and the number of sessions it looks ahead.
#[derive(Debug, Clone, PartialEq, Eq)]
pub struct ForwardPeriod {
    pub column: String,
    pub label: String,
    pub observations: u32,
}

pub open spec fn forward_prefix() -> Seq<char> {
    "forward_return_"@
}

pub open spec fn discovery_error(reason: &'static str) -> FerricAlphaError {
    FerricAlphaError::InvalidInput { operation: "discover_forward_periods", reason }
}

/// What the name of a column says: not a forward-return column (`None`), its session count,
/// or the error its label raises.
pub open spec fn forward_column_count(name: Seq<char>) -> Option<Result<u32, FerricAlphaError>> {
    if !has_prefix(name, forward_prefix()) {
        None
    } else {
        let suffix = name.subrange(forward_prefix().len() as int, name.len() as int);
        if !(suffix.len() > 0 && suffix.last() == 'D') {
            Some(Err(discovery_error("forward return period must end with D")))
        } else {
            let body = suffix.drop_last();
            if body.len() == 0 || body[0] == '0' {
                Some(Err(discovery_error("forward return period must be a positive daily count")))
            } else {
                match parsed_unsigned(body, u32::MAX as nat) {
                    None => Some(Err(discovery_error("forward return period must be numeric"))),
                    Some(v) => Some(Ok(v as u32)),
                }
            }
        }
    }
}

/// An earlier forward-return column already has this count.
pub open spec fn earlier_count(cols: Seq<ColumnInfo>, k: int, c: u32) -> bool {
    exists|j: int|
        0 <= j < k && #[trigger] forward_column_count(cols[j].name@) == Some(
            Ok::<u32, FerricAlphaError>(c),
        )
}

/// The error column `k` raises, given that the columns before it raised none.
pub open spec fn column_error(cols: Seq<ColumnInfo>, k: int) -> Option<FerricAlphaError> {
    match forward_column_count(cols[k].name@) {
        None => None,
        Some(Err(e)) => Some(e),
        Some(Ok(c)) => if c == 0 || earlier_count(cols, k, c) {
            Some(discovery_error("forward return periods must be unique and positive"))
        } else if !cols[k].is_float64 {
            Some(
                FerricAlphaError::InvalidDtype {
                    column: cols[k].name,
                    expected: "Float64",
                    actual: cols[k].dtype,
                },
            )
        } else {
            None
        },
    }
}

/// `p` comes from one of the first `n` columns: its name gives `p`'s count, and `p` keeps
/// the column's name and the label of the count.
pub open spec fn produced_by(cols: Seq<ColumnInfo>, n: int, p: ForwardPeriod) -> bool {
    exists|k: int|
        0 <= k < n && #[trigger] forward_column_count(cols[k].name@) == Some(
            Ok::<u32, FerricAlphaError>(p.observations),
        ) && p.column == cols[k].name && p.label@ == period_label(p.observations as nat)
}

/// Some period of `ps` has this count.
pub open spec fn has_observations(ps: Seq<ForwardPeriod>, c: u32) -> bool {
    exists|a: int| 0 <= a < ps.len() && #[trigger] ps[a].observations == c
}

/// The count that column `k` names, if any, is among `ps`.
pub open spec fn covered(cols: Seq<ColumnInfo>, k: int, ps: Seq<ForwardPeriod>) -> bool {
    match forward_column_count(cols[k].name@) {
        Some(Ok(c)) => has_observations(ps, c),
        _ => true,
    }
}

pub open spec fn increasing_counts(ps: Seq<ForwardPeriod>) -> bool {
    forall|a: int, b: int| 0 <= a < b < ps.len() ==> ps[a].observations < ps[b].observations
}

/// Reads the forward-return columns of a frame: every `forward_return_<n>D` column, with a
/// positive count not seen before and floating-point values. The periods come back ordered
/// by count.
pub fn discover_forward_periods(columns: &[ColumnInfo]) -> (r: Result<
    Vec<ForwardPeriod>,
    FerricAlphaError,
>)
    ensures
        r is Ok <==> forall|k: int|
            0 <= k < columns@.len() ==> #[trigger] column_error(columns@, k) is None,
        r matches Err(e) ==> exists|k: int|
            0 <= k < columns@.len() && (forall|j: int|
                0 <= j < k ==> #[trigger] column_error(columns@, j) is None) && column_error(
                columns@,
                k,
            ) == Some(e),
        r matches Ok(ps) ==> {
            &&& increasing_counts(ps@)
            &&& forall|a: int|
                0 <= a < ps@.len() ==> produced_by(columns@, columns@.len() as int, #[trigger] ps@[a])
            &&& forall|k: int| 0 <= k < columns@.len() ==> #[trigger] covered(columns@, k, ps@)
        },
{
    let n: usize = columns.len();
    let mut out: Vec<ForwardPeriod> = Vec::new();
    let mut i: usize = 0;
    while i < n
        invariant
            n == columns@.len(),
            i <= n,
            forall|k: int| 0 <= k < i ==> #[trigger] column_error(columns@, k) is None,
            increasing_counts(out@),
            forall|a: int| 0 <= a < out@.len() ==> produced_by(columns@, i as int, #[trigger] out@[a]),
            forall|k: int| 0 <= k < i ==> #[trigger] covered(columns@, k, out@),
        decreases n - i,
    {
        proof {
            reveal_strlit("forward_return_");
            reveal_strlit("D");
        }
        let column = &columns[i];
        let chars = chars_of(column.name.as_str());
        let m: usize = chars.len();
        if !starts_with(&chars, "forward_return_") {
            proof {
                assert forall|a: int| 0 <= a < out@.len() implies produced_by(
                    columns@,
                    i + 1,
                    #[trigger] out@[a],
                ) by {
                    assert(produced_by(columns@, i as int, out@[a]));
                }
                assert(column_error(columns@, i as int) is None);
                assert(covered(columns@, i as int, out@));
            }
            i = i + 1;
            continue;
        }
        let ghost suffix = chars@.subrange(15, m as int);
        if m == 15 || chars[m - 1] != 'D' {
            let e = FerricAlphaError::InvalidInput {
                operation: "discover_forward_periods",
                reason: "forward return period must end with D",
            };
            assert(column_error(columns@, i as int) == Some(e));
            return Err(e);
        }
        proof {
            assert(chars@.subrange(15, m - 1) =~= suffix.drop_last());
        }
        if m == 16 || chars[15] == '0' {
            let e = FerricAlphaError::InvalidInput {
                operation: "discover_forward_periods",
                reason: "forward return period must be a positive daily count",
            };
            assert(column_error(columns@, i as int) == Some(e));
            return Err(e);
        }
        let count: u32 = match parse_unsigned(&chars, 15, m - 1, 4294967295) {
            None => {
                let e = FerricAlphaError::InvalidInput {
                    operation: "discover_forward_periods",
                    reason: "forward return period must be numeric",
                };
                assert(column_error(columns@, i as int) == Some(e));
                return Err(e);
            },
            Some(v) => v as u32,
        };
        assert(forward_column_count(columns@[i as int].name@) == Some(
            Ok::<u32, FerricAlphaError>(count),
        ));
        let mut j: usize = 0;
        while j < out.len() && out[j].observations < count
            invariant
                j <= out@.len(),
                forall|k: int| 0 <= k < j ==> out@[k].observations < count,
            decreases out@.len() - j,
        {
            j = j + 1;
        }
        let duplicate: bool = j < out.len() && out[j].observations == count;
        proof {
            if duplicate {
                let a = j as int;
                assert(produced_by(columns@, i as int, out@[a]));
                let k = choose|k: int|
                    0 <= k < i && #[trigger] forward_column_count(columns@[k].name@) == Some(
                        Ok::<u32, FerricAlphaError>(out@[a].observations),
                    ) && out@[a].column == columns@[k].name && out@[a].label@ == period_label(
                        out@[a].observations as nat,
                    );
                assert(earlier_count(columns@, i as int, count));
            } else {
                assert forall|k: int|
                    0 <= k < i implies #[trigger] forward_column_count(columns@[k].name@) != Some(
                    Ok::<u32, FerricAlphaError>(count),
                ) by {
                    if forward_column_count(columns@[k].name@) == Some(
                        Ok::<u32, FerricAlphaError>(count),
                    ) {
                        assert(covered(columns@, k, out@));
                        let a = choose|a: int|
                            0 <= a < out@.len() && #[trigger] out@[a].observations == count;
                        if a > j {
                            assert(out@[j as int].observations < out@[a].observations);
                        }
                    }
                }
                assert(!earlier_count(columns@, i as int, count));
            }
        }
        if count == 0 || duplicate {
            let e = FerricAlphaError::InvalidInput {
                operation: "discover_forward_periods",
                reason: "forward return periods must be unique and positive",
            };
            assert(column_error(columns@, i as int) == Some(e));
            return Err(e);
        }
        if !column.is_float64 {
            let e = FerricAlphaError::InvalidDtype {
                column: column.name.clone(),
                expected: "Float64",
                actual: column.dtype.clone(),
            };
            assert(column_error(columns@, i as int) == Some(e));
            return Err(e);
        }
        let mut label = String::new();
        append_decimal(&mut label, count as u64);
        label.append("D");
        let period = ForwardPeriod { column: column.name.clone(), label, observations: count };
        assert(period.label@ =~= period_label(count as nat));
        assert(produced_by(columns@, i + 1, period));
        let ghost before = out@;
        out.insert(j, period);
        proof {
            assert forall|a: int| 0 <= a < out@.len() implies #[trigger] out@[a] == (if a < j {
                before[a]
            } else if a == j {
                period
            } else {
                before[a - 1]
            }) by {}
            assert forall|a: int| 0 <= a < out@.len() implies produced_by(
                columns@,
                i + 1,
                #[trigger] out@[a],
            ) by {
                if a != j {
                    let b = if a < j {
                        a
                    } else {
                        a - 1
                    };
                    assert(out@[a] == before[b]);
                    assert(produced_by(columns@, i as int, before[b]));
                }
            }
            assert forall|k: int| 0 <= k < i + 1 implies #[trigger] covered(columns@, k, out@) by {
                if k == i {
                    assert(out@[j as int].observations == count);
                } else {
                    assert(covered(columns@, k, before));
                    if let Some(Ok(c)) = forward_column_count(columns@[k].name@) {
                        let a = choose|a: int|
                            0 <= a < before.len() && #[trigger] before[a].observations == c;
                        if a < j {
                            assert(out@[a].observations == c);
                        } else {
                            assert(out@[a + 1].observations == c);
                        }
                    }
                }
            }
            assert(column_error(columns@, i as int) is None);
        }
        i = i + 1;
    }
    Ok(out)
}


/// The sort position of a period label: its count when it reads `<n>D`.
pub open spec fn period_order_of(s: Seq<char>) -> Option<nat> {
    if s.len() > 0 && s.last() == 'D' {
        parsed_unsigned(s.drop_last(), u32::MAX as nat)
    } else {
        None
    }
}

/// The number a period label sorts by, so that `5D` comes before `10D`.
pub fn period_order(label: &str) -> (r: Option<u32>)
    ensures
        match period_order_of(label@) {
            Some(v) => r == Some(v as u32),
            None => r is None,
        },
{
    let chars = chars_of(label);
    let n: usize = chars.len();
    if n == 0 || chars[n - 1] != 'D' {
        return None;
    }
    proof {
        assert(chars@.subrange(0, n - 1) =~= label@.drop_last());
    }
    match parse_unsigned(&chars, 0, n - 1, 4294967295) {
        Some(v) => Some(v as u32),
        None => None,
    }
}

} // verus!
