use vstd::prelude::*;

use std::collections::HashSet;

use crate::calendar::{strictly_increasing, TradingCalendar};
use crate::error::FerricAlphaError;
use crate::report::metadata::FactorKey;
use crate::report::table::{finite_bits, float_key};

verus! {

/// The key of a frame row: its date and its asset (by number); either may be missing.
#[derive(Debug, Clone, Copy, PartialEq, Eq, Structural)]
pub struct RowKey {
    pub date: Option<i64>,
    pub asset: Option<u64>,
}

/// A price row: its key and its price as an IEEE-754 bit pattern, when there is one.
#[derive(Debug, Clone, Copy, PartialEq, Eq)]
pub struct PriceRow {
    pub key: RowKey,
    pub price: Option<u64>,
}

/// What a frame holds of a column that a check may need.
#[derive(Debug, Clone, PartialEq, Eq)]
pub enum ColumnState {
    Missing,
    Mistyped(String),
    Present,
}

pub open spec fn key_null(k: RowKey) -> bool {
    k.date is None || k.asset is None
}

/// An earlier row has the same key as row `k`.
pub open spec fn repeats_earlier(keys: Seq<RowKey>, k: int) -> bool {
    exists|j: int| 0 <= j < k && #[trigger] keys[j] == keys[k]
}

pub open spec fn any_null(keys: Seq<RowKey>) -> bool {
    exists|k: int| 0 <= k < keys.len() && #[trigger] key_null(keys[k])
}

pub open spec fn any_repeat(keys: Seq<RowKey>) -> bool {
    exists|k: int| 0 <= k < keys.len() && #[trigger] repeats_earlier(keys, k)
}

/// A price that is given but is not a positive finite number.
pub open spec fn price_bad(price: Option<u64>) -> bool {
    price matches Some(b) && (!finite_bits(b) || float_key(b) <= 0)
}

pub open spec fn price_keys(rows: Seq<PriceRow>) -> Seq<RowKey> {
    rows.map_values(|r: PriceRow| r.key)
}

/// Row `k` of a price frame breaks a rule: a bad price, or a key seen before.
pub open spec fn price_row_fails(rows: Seq<PriceRow>, k: int) -> bool {
    price_bad(rows[k].price) || repeats_earlier(price_keys(rows), k)
}

/// A date and an asset number packed into one number, distinct for distinct pairs.
pub open spec fn pack(date: i64, asset: u64) -> int {
    (date as int + 0x8000_0000_0000_0000) * 0x1_0000_0000_0000_0000 + asset as int
}

pub(crate) proof fn lemma_pack_injective(d1: i64, a1: u64, d2: i64, a2: u64)
    ensures
        pack(d1, a1) == pack(d2, a2) <==> (d1 == d2 && a1 == a2),
        0 <= pack(d1, a1) <= u128::MAX,
{
}

pub(crate) fn pack_key(date: i64, asset: u64) -> (r: u128)
    ensures
        r == pack(date, asset),
{
    proof {
        lemma_pack_injective(date, asset, date, asset);
    }
    let shifted: u128 = (date as i128 + 0x8000_0000_0000_0000i128) as u128;
    shifted * 0x1_0000_0000_0000_0000u128 + asset as u128
}

/// The keys of a frame: none may be missing (checked over all rows first), and no
/// date and asset may come twice.
pub fn validate_row_keys(keys: &[RowKey]) -> (r: Result<(), FerricAlphaError>)
    ensures
        any_null(keys@) ==> r == Err::<(), FerricAlphaError>(FerricAlphaError::NullKey),
        !any_null(keys@) && any_repeat(keys@) ==> r == Err::<(), FerricAlphaError>(
            FerricAlphaError::DuplicateKey,
        ),
        !any_null(keys@) && !any_repeat(keys@) ==> r is Ok,
{
    broadcast use vstd::std_specs::hash::group_hash_axioms;

    let n: usize = keys.len();
    let mut i: usize = 0;
    while i < n
        invariant
            n == keys@.len(),
            i <= n,
            forall|k: int| 0 <= k < i ==> !#[trigger] key_null(keys@[k]),
        decreases n - i,
    {
        if keys[i].date.is_none() || keys[i].asset.is_none() {
            assert(key_null(keys@[i as int]));
            return Err(FerricAlphaError::NullKey);
        }
        i = i + 1;
    }
    let mut seen: HashSet<u128> = HashSet::new();
    let mut i: usize = 0;
    while i < n
        invariant
            n == keys@.len(),
            i <= n,
            forall|k: int| 0 <= k < n ==> !#[trigger] key_null(keys@[k]),
            forall|k: int| 0 <= k < i ==> !#[trigger] repeats_earlier(keys@, k),
            forall|x: u128|
                seen@.contains(x) <==> exists|j: int|
                    0 <= j < i && x == pack(#[trigger] keys@[j].date->0, keys@[j].asset->0),
        decreases n - i,
    {
        let key: RowKey = keys[i];
        assert(!key_null(keys@[i as int]));
        let date: i64 = key.date.unwrap();
        let asset: u64 = key.asset.unwrap();
        let packed: u128 = pack_key(date, asset);
        let fresh: bool = seen.insert(packed);
        if !fresh {
            proof {
                let j = choose|j: int|
                    0 <= j < i && packed == pack(#[trigger] keys@[j].date->0, keys@[j].asset->0);
                assert(!key_null(keys@[j]));
                lemma_pack_injective(keys@[j].date->0, keys@[j].asset->0, date, asset);
                assert(keys@[j] == keys@[i as int]);
                assert(repeats_earlier(keys@, i as int));
            }
            return Err(FerricAlphaError::DuplicateKey);
        }
        proof {
            assert forall|j: int| 0 <= j < i implies keys@[j] != keys@[i as int] by {
                assert(!key_null(keys@[j]));
                lemma_pack_injective(keys@[j].date->0, keys@[j].asset->0, date, asset);
            }
            assert(!repeats_earlier(keys@, i as int));
            assert forall|x: u128|
                seen@.contains(x) <==> exists|j: int|
                    0 <= j < i + 1 && x == pack(#[trigger] keys@[j].date->0, keys@[j].asset->0) by {
                if x == packed {
                    assert(x == pack(keys@[i as int].date->0, keys@[i as int].asset->0));
                }
            }
        }
        i = i + 1;
    }
    Ok(())
}

/// Row `k`'s key is missing or was seen before.
pub open spec fn key_fails(keys: Seq<RowKey>, k: int) -> bool {
    key_null(keys[k]) || repeats_earlier(keys, k)
}

/// The keys of a frame read row by row into a lookup: the first row whose key is missing
/// or repeated decides the error.
pub fn validate_lookup_keys(keys: &[RowKey]) -> (r: Result<(), FerricAlphaError>)
    ensures
        match r {
            Ok(()) => forall|k: int| 0 <= k < keys@.len() ==> !#[trigger] key_fails(keys@, k),
            Err(e) => exists|k: int|
                0 <= k < keys@.len() && #[trigger] key_fails(keys@, k) && (forall|j: int|
                    0 <= j < k ==> !key_fails(keys@, j)) && e == if key_null(keys@[k]) {
                    FerricAlphaError::NullKey
                } else {
                    FerricAlphaError::DuplicateKey
                },
        },
{
    broadcast use vstd::std_specs::hash::group_hash_axioms;

    let n: usize = keys.len();
    let mut seen: HashSet<u128> = HashSet::new();
    let mut i: usize = 0;
    while i < n
        invariant
            n == keys@.len(),
            i <= n,
            forall|k: int| 0 <= k < i ==> !#[trigger] key_fails(keys@, k),
            forall|x: u128|
                seen@.contains(x) <==> exists|j: int|
                    0 <= j < i && x == pack(#[trigger] keys@[j].date->0, keys@[j].asset->0),
        decreases n - i,
    {
        let key: RowKey = keys[i];
        if key.date.is_none() || key.asset.is_none() {
            assert(key_fails(keys@, i as int));
            return Err(FerricAlphaError::NullKey);
        }
        let date: i64 = key.date.unwrap();
        let asset: u64 = key.asset.unwrap();
        let packed: u128 = pack_key(date, asset);
        let fresh: bool = seen.insert(packed);
        if !fresh {
            proof {
                let j = choose|j: int|
                    0 <= j < i && packed == pack(#[trigger] keys@[j].date->0, keys@[j].asset->0);
                assert(!key_fails(keys@, j));
                lemma_pack_injective(keys@[j].date->0, keys@[j].asset->0, date, asset);
                assert(keys@[j] == keys@[i as int]);
                assert(key_fails(keys@, i as int));
            }
            return Err(FerricAlphaError::DuplicateKey);
        }
        proof {
            assert forall|j: int| 0 <= j < i implies keys@[j] != keys@[i as int] by {
                assert(!key_fails(keys@, j));
                lemma_pack_injective(keys@[j].date->0, keys@[j].asset->0, date, asset);
            }
            assert(!key_fails(keys@, i as int));
            assert forall|x: u128|
                seen@.contains(x) <==> exists|j: int|
                    0 <= j < i + 1 && x == pack(#[trigger] keys@[j].date->0, keys@[j].asset->0) by {
                if x == packed {
                    assert(x == pack(keys@[i as int].date->0, keys@[i as int].asset->0));
                }
            }
        }
        i = i + 1;
    }
    Ok(())
}

/// The rows of a price frame: no key may be missing (checked over all rows first); then,
/// row by row, the price must be positive and finite and the key new.
pub fn validate_price_rows(rows: &[PriceRow]) -> (r: Result<(), FerricAlphaError>)
    ensures
        any_null(price_keys(rows@)) ==> r == Err::<(), FerricAlphaError>(FerricAlphaError::NullKey),
        !any_null(price_keys(rows@)) ==> match r {
            Ok(()) => forall|k: int| 0 <= k < rows@.len() ==> !#[trigger] price_row_fails(rows@, k),
            Err(e) => exists|k: int|
                0 <= k < rows@.len() && #[trigger] price_row_fails(rows@, k) && (forall|j: int|
                    0 <= j < k ==> !price_row_fails(rows@, j)) && e == if price_bad(rows@[k].price) {
                    FerricAlphaError::InvalidPrice
                } else {
                    FerricAlphaError::DuplicateKey
                },
        },
{
    broadcast use vstd::std_specs::hash::group_hash_axioms;

    let ghost keys = price_keys(rows@);
    let n: usize = rows.len();
    let mut i: usize = 0;
    while i < n
        invariant
            n == rows@.len(),
            keys == price_keys(rows@),
            i <= n,
            forall|k: int| 0 <= k < i ==> !#[trigger] key_null(keys[k]),
        decreases n - i,
    {
        if rows[i].key.date.is_none() || rows[i].key.asset.is_none() {
            assert(key_null(keys[i as int]));
            return Err(FerricAlphaError::NullKey);
        }
        i = i + 1;
    }
    let mut seen: HashSet<u128> = HashSet::new();
    let mut i: usize = 0;
    while i < n
        invariant
            n == rows@.len(),
            keys == price_keys(rows@),
            i <= n,
            forall|k: int| 0 <= k < n ==> !#[trigger] key_null(keys[k]),
            forall|k: int| 0 <= k < i ==> !#[trigger] price_row_fails(rows@, k),
            forall|x: u128|
                seen@.contains(x) <==> exists|j: int|
                    0 <= j < i && x == pack(#[trigger] keys[j].date->0, keys[j].asset->0),
        decreases n - i,
    {
        let row: PriceRow = rows[i];
        assert(keys[i as int] == row.key);
        let bad: bool = match row.price {
            Some(b) => (b / 0x10_0000_0000_0000) % 0x800 == 0x7ff || b == 0 || b >= 0x8000_0000_0000_0000,
            None => false,
        };
        if bad {
            assert(price_row_fails(rows@, i as int));
            return Err(FerricAlphaError::InvalidPrice);
        }
        assert(!key_null(keys[i as int]));
        let date: i64 = row.key.date.unwrap();
        let asset: u64 = row.key.asset.unwrap();
        let packed: u128 = pack_key(date, asset);
        let fresh: bool = seen.insert(packed);
        if !fresh {
            proof {
                let j = choose|j: int| 0 <= j < i && packed == pack(#[trigger] keys[j].date->0, keys[j].asset->0);
                assert(!key_null(keys[j]));
                lemma_pack_injective(keys[j].date->0, keys[j].asset->0, date, asset);
                assert(keys[j] == keys[i as int]);
                assert(repeats_earlier(keys, i as int));
                assert(price_row_fails(rows@, i as int));
            }
            return Err(FerricAlphaError::DuplicateKey);
        }
        proof {
            assert forall|j: int| 0 <= j < i implies keys[j] != keys[i as int] by {
                assert(!key_null(keys[j]));
                lemma_pack_injective(keys[j].date->0, keys[j].asset->0, date, asset);
            }
            assert(!repeats_earlier(keys, i as int));
            assert(!price_row_fails(rows@, i as int));
            assert forall|x: u128|
                seen@.contains(x) <==> exists|j: int|
                    0 <= j < i + 1 && x == pack(#[trigger] keys[j].date->0, keys[j].asset->0) by {
                if x == packed {
                    assert(x == pack(keys[i as int].date->0, keys[i as int].asset->0));
                }
            }
        }
        i = i + 1;
    }
    Ok(())
}

/// Where `x` stands, or would stand, in a strictly increasing list; and whether it is there.
fn find_sorted(v: &Vec<i64>, x: i64) -> (r: (usize, bool))
    requires
        strictly_increasing(v@),
    ensures
        r.0 <= v@.len(),
        forall|k: int| 0 <= k < r.0 ==> v@[k] < x,
        forall|k: int| r.0 <= k < v@.len() ==> v@[k] >= x,
        r.1 == v@.contains(x),
        r.1 ==> r.0 < v@.len() && v@[r.0 as int] == x,
{
    let mut lo: usize = 0;
    let mut hi: usize = v.len();
    while lo < hi
        invariant
            strictly_increasing(v@),
            lo <= hi <= v@.len(),
            forall|k: int| 0 <= k < lo ==> v@[k] < x,
            forall|k: int| hi <= k < v@.len() ==> v@[k] >= x,
        decreases hi - lo,
    {
        let mid: usize = lo + (hi - lo) / 2;
        if v[mid] < x {
            lo = mid + 1;
        } else {
            hi = mid;
        }
    }
    let found: bool = lo < v.len() && v[lo] == x;
    proof {
        if !found && v@.contains(x) {
            let k = choose|k: int| 0 <= k < v@.len() && v@[k] == x;
            if k >= lo as int && lo < v@.len() {
                assert(v@[lo as int] <= v@[k]);
            }
        }
    }
    (lo, found)
}

/// The distinct values of a list, in increasing order.
pub fn distinct_sorted(values: &[i64]) -> (r: Vec<i64>)
    ensures
        strictly_increasing(r@),
        forall|d: i64| r@.contains(d) <==> values@.contains(d),
{
    let n: usize = values.len();
    let mut out: Vec<i64> = Vec::new();
    let mut i: usize = 0;
    while i < n
        invariant
            n == values@.len(),
            i <= n,
            strictly_increasing(out@),
            forall|d: i64| out@.contains(d) <==> values@.subrange(0, i as int).contains(d),
        decreases n - i,
    {
        let v: i64 = values[i];
        let ghost pre = values@.subrange(0, i as int);
        let ghost post = values@.subrange(0, i + 1);
        proof {
            assert(post[i as int] == v);
            assert forall|k: int| 0 <= k < i implies post[k] == pre[k] by {}
        }
        let (j, found) = find_sorted(&out, v);
        if !found {
            let ghost before = out@;
            out.insert(j, v);
            proof {
                assert forall|k: int| 0 <= k < out@.len() implies #[trigger] out@[k] == (if k < j {
                    before[k]
                } else if k == j {
                    v
                } else {
                    before[k - 1]
                }) by {}
                assert forall|a: int, b: int| 0 <= a < b < out@.len() implies out@[a] < out@[b] by {
                    if a < j && b > j {
                        assert(before[a] < before[b - 1]);
                    } else if a > j {
                        assert(before[a - 1] < before[b - 1]);
                    }
                }
                assert forall|d: i64| out@.contains(d) <==> post.contains(d) by {
                    if out@.contains(d) {
                        let k = choose|k: int| 0 <= k < out@.len() && out@[k] == d;
                        if k < j {
                            assert(before[k] == d);
                            assert(before.contains(d));
                        } else if k > j {
                            assert(before[k - 1] == d);
                            assert(before.contains(d));
                        }
                        if d != v {
                            assert(pre.contains(d));
                            let m = choose|m: int| 0 <= m < pre.len() && pre[m] == d;
                            assert(post[m] == d);
                        }
                    }
                    if post.contains(d) {
                        let m = choose|m: int| 0 <= m < post.len() && post[m] == d;
                        if m < i {
                            assert(pre[m] == d);
                            assert(before.contains(d));
                            let k = choose|k: int| 0 <= k < before.len() && before[k] == d;
                            if k < j {
                                assert(out@[k] == d);
                            } else {
                                assert(out@[k + 1] == d);
                            }
                        } else {
                            assert(out@[j as int] == d);
                        }
                    }
                }
            }
        } else {
            proof {
                assert forall|d: i64| out@.contains(d) <==> post.contains(d) by {
                    if post.contains(d) {
                        let m = choose|m: int| 0 <= m < post.len() && post[m] == d;
                        if m < i {
                            assert(pre[m] == d);
                        }
                    }
                    if out@.contains(d) {
                        assert(pre.contains(d));
                        let m = choose|m: int| 0 <= m < pre.len() && pre[m] == d;
                        assert(post[m] == d);
                    }
                }
            }
        }
        i = i + 1;
    }
    proof {
        assert(values@.subrange(0, n as int) =~= values@);
    }
    out
}

/// The trading calendar of a price frame: its distinct dates in order, in the frame's zone.
pub fn calendar_from_dates(dates: &[i64], timezone: Option<String>) -> (r: TradingCalendar)
    ensures
        strictly_increasing(r@),
        forall|d: i64| r@.contains(d) <==> dates@.contains(d),
        r.spec_timezone() == timezone,
{
    let sessions = distinct_sorted(dates);
    let ghost s = sessions@;
    match TradingCalendar::new(sessions, timezone) {
        Ok(c) => c,
        Err(_) => {
            proof {
                assert(strictly_increasing(s));
            }
            assert(false);
            TradingCalendar::new(Vec::new(), None).unwrap()
        },
    }
}

pub open spec fn row_group_missing(row: FactorKey, require_group: bool) -> bool {
    require_group && row.group is None
}

pub open spec fn row_quantile_missing(row: FactorKey, require_quantile: bool) -> bool {
    require_quantile && !(row.quantile matches Some(q) && q > 0)
}

pub open spec fn factor_row_fails(row: FactorKey, require_quantile: bool, require_group: bool) -> bool {
    row_group_missing(row, require_group) || row_quantile_missing(row, require_quantile)
}

pub open spec fn factor_data_error(reason: &'static str) -> FerricAlphaError {
    FerricAlphaError::InvalidInput { operation: "validate_factor_data", reason }
}

/// The columns of factor data fall short of what a computation needs: forward returns,
/// a group column, or an unsigned quantile column.
pub open spec fn columns_short(
    period_count: nat,
    group_column: bool,
    quantile_column: ColumnState,
    require_quantile: bool,
    require_group: bool,
    require_returns: bool,
) -> bool {
    (require_returns && period_count == 0) || (require_group && !group_column) || (require_quantile
        && !(quantile_column is Present))
}

/// Checks factor data against what a computation needs, in order: forward-return columns,
/// a group column, an unsigned quantile column, then row by row a group and a positive
/// quantile.
#[verifier::loop_isolation(false)]
pub fn check_factor_data(
    period_count: usize,
    group_column: bool,
    quantile_column: &ColumnState,
    rows: &[FactorKey],
    require_quantile: bool,
    require_group: bool,
    require_returns: bool,
) -> (r: Result<(), FerricAlphaError>)
    ensures
        require_returns && period_count == 0 ==> r == Err::<(), FerricAlphaError>(
            FerricAlphaError::MissingColumn("forward_return_*"),
        ),
        !(require_returns && period_count == 0) && require_group && !group_column ==> r == Err::<
            (),
            FerricAlphaError,
        >(FerricAlphaError::MissingColumn("group")),
        !(require_returns && period_count == 0) && !(require_group && !group_column)
            && require_quantile && *quantile_column is Missing ==> r == Err::<(), FerricAlphaError>(
            FerricAlphaError::MissingColumn("factor_quantile"),
        ),
        !(require_returns && period_count == 0) && !(require_group && !group_column)
            && require_quantile && *quantile_column is Mistyped ==> (r matches Err(
            FerricAlphaError::InvalidDtype { column, expected, actual },
        ) && column@ == "factor_quantile"@ && expected == "UInt32" && actual@
            == quantile_column->Mistyped_0@),
        !columns_short(
            period_count as nat,
            group_column,
            *quantile_column,
            require_quantile,
            require_group,
            require_returns,
        ) ==> match r {
            Ok(()) => forall|k: int|
                0 <= k < rows@.len() ==> !#[trigger] factor_row_fails(
                    rows@[k],
                    require_quantile,
                    require_group,
                ),
            Err(e) => exists|k: int|
                0 <= k < rows@.len() && #[trigger] factor_row_fails(
                    rows@[k],
                    require_quantile,
                    require_group,
                ) && (forall|j: int|
                    0 <= j < k ==> !factor_row_fails(rows@[j], require_quantile, require_group))
                    && e == if row_group_missing(rows@[k], require_group) {
                    factor_data_error("group must not contain null values")
                } else {
                    factor_data_error("factor_quantile must be non-null and positive")
                },
        },
{
    if require_returns && period_count == 0 {
        return Err(FerricAlphaError::MissingColumn("forward_return_*"));
    }
    if require_group && !group_column {
        return Err(FerricAlphaError::MissingColumn("group"));
    }
    if require_quantile {
        match quantile_column {
            ColumnState::Missing => {
                return Err(FerricAlphaError::MissingColumn("factor_quantile"));
            },
            ColumnState::Mistyped(actual) => {
                proof {
                    reveal_strlit("factor_quantile");
                }
                return Err(
                    FerricAlphaError::InvalidDtype {
                        column: String::from_str("factor_quantile"),
                        expected: "UInt32",
                        actual: actual.clone(),
                    },
                );
            },
            ColumnState::Present => {},
        }
    }
    let n: usize = rows.len();
    let mut i: usize = 0;
    while i < n
        invariant
            n == rows@.len(),
            i <= n,
            forall|k: int|
                0 <= k < i ==> !#[trigger] factor_row_fails(rows@[k], require_quantile, require_group),
        decreases n - i,
    {
        let row = &rows[i];
        if require_group && row.group.is_none() {
            assert(factor_row_fails(rows@[i as int], require_quantile, require_group));
            return Err(
                FerricAlphaError::InvalidInput {
                    operation: "validate_factor_data",
                    reason: "group must not contain null values",
                },
            );
        }
        let positive: bool = match row.quantile {
            Some(q) => q > 0,
            None => false,
        };
        if require_quantile && !positive {
            assert(factor_row_fails(rows@[i as int], require_quantile, require_group));
            return Err(
                FerricAlphaError::InvalidInput {
                    operation: "validate_factor_data",
                    reason: "factor_quantile must be non-null and positive",
                },
            );
        }
        i = i + 1;
    }
    Ok(())
}

/// The column of a factor frame that a check refuses first, with the type it expects and
/// what the frame holds of it: the required `date`, `asset` and `factor` columns must all be
/// there, then have their types, and an optional `group` column must hold text.
pub open spec fn first_column_fault(
    date: ColumnState,
    asset: ColumnState,
    factor: ColumnState,
    group: ColumnState,
) -> Option<(&'static str, &'static str, ColumnState)> {
    if date is Missing {
        Some(("date", "Datetime", date))
    } else if asset is Missing {
        Some(("asset", "String", asset))
    } else if factor is Missing {
        Some(("factor", "Float64", factor))
    } else if date is Mistyped {
        Some(("date", "Datetime", date))
    } else if asset is Mistyped {
        Some(("asset", "String", asset))
    } else if factor is Mistyped {
        Some(("factor", "Float64", factor))
    } else if group is Mistyped {
        Some(("group", "String", group))
    } else {
        None
    }
}

/// The error that a column in state `state` raises: missing, or of another type.
pub open spec fn column_fault(
    e: FerricAlphaError,
    name: &'static str,
    expected: &'static str,
    state: ColumnState,
) -> bool {
    match state {
        ColumnState::Missing => e == FerricAlphaError::MissingColumn(name),
        ColumnState::Mistyped(actual) => e matches FerricAlphaError::InvalidDtype {
            column,
            expected: x,
            actual: a,
        } && column@ == name@ && x == expected && a@ == actual@,
        ColumnState::Present => false,
    }
}

fn column_error_of(name: &'static str, expected: &'static str, state: &ColumnState) -> (r: Result<
    (),
    FerricAlphaError,
>)
    ensures
        state is Present ==> r is Ok,
        !(state is Present) ==> (r matches Err(e) && column_fault(e, name, expected, *state)),
{
    match state {
        ColumnState::Missing => Err(FerricAlphaError::MissingColumn(name)),
        ColumnState::Mistyped(actual) => Err(
            FerricAlphaError::InvalidDtype {
                column: String::from_str(name),
                expected,
                actual: actual.clone(),
            },
        ),
        ColumnState::Present => Ok(()),
    }
}

/// Checks the columns of a factor frame: `date`, `asset` and `factor` must be present, and
/// then be of types `Datetime`, `String` and `Float64`; a `group` column, when there is one,
/// must be of type `String`. The first column refused decides the error.
pub fn check_factor_columns(
    date: &ColumnState,
    asset: &ColumnState,
    factor: &ColumnState,
    group: &ColumnState,
) -> (r: Result<(), FerricAlphaError>)
    ensures
        match first_column_fault(*date, *asset, *factor, *group) {
            None => r is Ok,
            Some((name, expected, state)) => r matches Err(e) && column_fault(
                e,
                name,
                expected,
                state,
            ),
        },
{
    if date.is_missing() {
        return column_error_of("date", "Datetime", date);
    }
    if asset.is_missing() {
        return column_error_of("asset", "String", asset);
    }
    if factor.is_missing() {
        return column_error_of("factor", "Float64", factor);
    }
    column_error_of("date", "Datetime", date)?;
    column_error_of("asset", "String", asset)?;
    column_error_of("factor", "Float64", factor)?;
    if group.is_missing() {
        return Ok(());
    }
    column_error_of("group", "String", group)
}

impl ColumnState {
    /// Whether the column is absent.
    pub fn is_missing(&self) -> (r: bool)
        ensures
            r <==> *self is Missing,
    {
        match self {
            ColumnState::Missing => true,
            _ => false,
        }
    }
}

} // verus!
