use vstd::prelude::*;

use std::collections::HashSet;

use crate::data::{lemma_pack_injective, pack, pack_key};
use crate::error::FerricAlphaError;
use crate::sorted::texts;
use crate::text::str_eq;

verus! {

/// The key of a factor-return row given to the alpha and beta regression.
#[derive(Debug, Clone, PartialEq, Eq)]
pub struct FactorReturnKey {
    pub date: Option<i64>,
    pub period: Option<String>,
}

/// `p` is the first place of `label` among the allowed labels.
pub open spec fn first_at(allowed: Seq<Seq<char>>, label: Seq<char>, p: int) -> bool {
    &&& 0 <= p < allowed.len()
    &&& allowed[p] == label
    &&& forall|q: int| 0 <= q < p ==> allowed[q] != label
}

pub open spec fn alpha_beta_error(reason: &'static str) -> FerricAlphaError {
    FerricAlphaError::InvalidInput { operation: "factor_alpha_beta", reason }
}

/// Two rows with the same date and the same period label.
pub open spec fn same_return_key(a: FactorReturnKey, b: FactorReturnKey) -> bool {
    a.date == b.date && a.period->0@ == b.period->0@
}

/// The rule that row `k` breaks, if any: a missing date, a missing period, a period the
/// factor data lacks, or a date and period that an earlier row has.
pub open spec fn return_key_error(
    rows: Seq<FactorReturnKey>,
    allowed: Seq<Seq<char>>,
    k: int,
) -> Option<FerricAlphaError> {
    if rows[k].date is None {
        Some(FerricAlphaError::NullKey)
    } else if rows[k].period is None {
        Some(alpha_beta_error("period must not be null"))
    } else if !allowed.contains(rows[k].period->0@) {
        Some(alpha_beta_error("period must exist in factor data"))
    } else if exists|j: int| 0 <= j < k && same_return_key(#[trigger] rows[j], rows[k]) {
        Some(FerricAlphaError::DuplicateKey)
    } else {
        None
    }
}

proof fn lemma_first_at_unique(allowed: Seq<Seq<char>>, l1: Seq<char>, l2: Seq<char>, p1: int, p2: int)
    requires
        first_at(allowed, l1, p1),
        first_at(allowed, l2, p2),
    ensures
        (l1 == l2) <==> (p1 == p2),
{
    if l1 == l2 && p1 != p2 {
        if p1 < p2 {
            assert(allowed[p1] != l2);
        } else {
            assert(allowed[p2] != l1);
        }
    }
}

/// The first place of a label among the allowed labels, if it is there.
fn find_label(allowed: &[String], label: &str) -> (r: Option<usize>)
    ensures
        r matches Some(p) ==> first_at(texts(allowed@), label@, p as int),
        r is None ==> !texts(allowed@).contains(label@),
{
    let n: usize = allowed.len();
    let mut p: usize = 0;
    while p < n
        invariant
            n == allowed@.len(),
            p <= n,
            forall|q: int| 0 <= q < p ==> texts(allowed@)[q] != label@,
        decreases n - p,
    {
        if str_eq(allowed[p].as_str(), label) {
            return Some(p);
        }
        p = p + 1;
    }
    None
}

/// Checks the keys of the factor returns that the regression is given, row by row: the
/// first row that breaks a rule decides the error.
pub fn check_factor_return_keys(rows: &[FactorReturnKey], allowed: &[String]) -> (r: Result<
    (),
    FerricAlphaError,
>)
    ensures
        r is Ok <==> forall|k: int|
            0 <= k < rows@.len() ==> #[trigger] return_key_error(rows@, texts(allowed@), k) is None,
        r matches Err(e) ==> exists|k: int|
            0 <= k < rows@.len() && return_key_error(rows@, texts(allowed@), k) == Some(e) && forall|
                j: int,
            |
                0 <= j < k ==> #[trigger] return_key_error(rows@, texts(allowed@), j) is None,
{
    broadcast use vstd::std_specs::hash::group_hash_axioms;

    let ghost labels = texts(allowed@);
    let n: usize = rows.len();
    let m: usize = allowed.len();
    let mut seen: HashSet<u128> = HashSet::new();
    let mut i: usize = 0;
    while i < n
        invariant
            n == rows@.len(),
            i <= n,
            labels == texts(allowed@),
            m == allowed@.len(),
            forall|k: int| 0 <= k < i ==> #[trigger] return_key_error(rows@, labels, k) is None,
            forall|x: u128|
                seen@.contains(x) <==> exists|j: int, p: int|
                    0 <= j < i && first_at(labels, rows@[j].period->0@, p) && x == pack(
                        #[trigger] rows@[j].date->0,
                        p as u64,
                    ),
        decreases n - i,
    {
        let date: i64 = match rows[i].date {
            Some(d) => d,
            None => {
                return Err(FerricAlphaError::NullKey);
            },
        };
        let label: &String = match &rows[i].period {
            Some(l) => l,
            None => {
                return Err(
                    FerricAlphaError::InvalidInput {
                        operation: "factor_alpha_beta",
                        reason: "period must not be null",
                    },
                );
            },
        };
        let p: usize = match find_label(allowed, label.as_str()) {
            Some(p) => p,
            None => {
                return Err(
                    FerricAlphaError::InvalidInput {
                        operation: "factor_alpha_beta",
                        reason: "period must exist in factor data",
                    },
                );
            },
        };
        let packed: u128 = pack_key(date, p as u64);
        proof {
            lemma_pack_injective(date, p as u64, date, p as u64);
        }
        let fresh: bool = seen.insert(packed);
        if !fresh {
            proof {
                let (j, q) = choose|j: int, q: int|
                    0 <= j < i && first_at(labels, rows@[j].period->0@, q) && packed == pack(
                        #[trigger] rows@[j].date->0,
                        q as u64,
                    );
                assert(labels.len() == allowed@.len());
                assert(0 <= q < m);
                assert(q as u64 == q);
                lemma_pack_injective(rows@[j].date->0, q as u64, date, p as u64);
                lemma_first_at_unique(labels, rows@[j].period->0@, label@, q, p as int);
                assert(return_key_error(rows@, labels, j) is None);
                assert(same_return_key(rows@[j], rows@[i as int]));
            }
            return Err(FerricAlphaError::DuplicateKey);
        }
        proof {
            assert forall|j: int| 0 <= j < i implies !same_return_key(
                #[trigger] rows@[j],
                rows@[i as int],
            ) by {
                assert(return_key_error(rows@, labels, j) is None);
                if same_return_key(rows@[j], rows@[i as int]) {
                    assert(first_at(labels, rows@[j].period->0@, p as int));
                    assert(seen@.contains(packed));
                }
            }
            assert(return_key_error(rows@, labels, i as int) is None);
            assert forall|x: u128|
                seen@.contains(x) <==> exists|j: int, q: int|
                    0 <= j < i + 1 && first_at(labels, rows@[j].period->0@, q) && x == pack(
                        #[trigger] rows@[j].date->0,
                        q as u64,
                    ) by {
                if x == packed {
                    assert(first_at(labels, rows@[i as int].period->0@, p as int));
                    assert(x == pack(rows@[i as int].date->0, p as u64));
                }
            }
        }
        i = i + 1;
    }
    Ok(())
}

} // verus!
