use vstd::prelude::*;

use crate::text::{
    lemma_seq_lt_asymmetric, lemma_seq_lt_irreflexive, lemma_seq_lt_total, lemma_seq_lt_transitive,
    seq_lt, str_eq, str_less,
};

verus! {

/// The keys a report row is sorted by: a date, a quantile and a label when the table has
/// them, then the period.
#[derive(Debug, Clone)]
pub struct RowSortKey {
    pub date: Option<i64>,
    pub quantile: Option<u32>,
    pub label: Option<String>,
    pub period: String,
}

pub open spec fn int_order(a: int, b: int) -> int {
    if a < b {
        -1
    } else if a == b {
        0
    } else {
        1
    }
}

pub open spec fn text_order(a: Seq<char>, b: Seq<char>) -> int {
    if seq_lt(a, b) {
        -1
    } else if a == b {
        0
    } else {
        1
    }
}

/// Missing values sort first.
pub open spec fn opt_int_order(a: Option<int>, b: Option<int>) -> int {
    match (a, b) {
        (None, None) => 0,
        (None, Some(_)) => -1,
        (Some(_), None) => 1,
        (Some(x), Some(y)) => int_order(x, y),
    }
}

pub open spec fn opt_text_order(a: Option<String>, b: Option<String>) -> int {
    match (a, b) {
        (None, None) => 0,
        (None, Some(_)) => -1,
        (Some(_), None) => 1,
        (Some(x), Some(y)) => text_order(x@, y@),
    }
}

pub open spec fn date_of(k: RowSortKey) -> Option<int> {
    match k.date {
        Some(d) => Some(d as int),
        None => None,
    }
}

pub open spec fn quantile_of(k: RowSortKey) -> Option<int> {
    match k.quantile {
        Some(q) => Some(q as int),
        None => None,
    }
}

/// How two keys compare, -1, 0 or 1: by date, quantile, label and period in turn.
pub open spec fn key_order(a: RowSortKey, b: RowSortKey) -> int {
    if opt_int_order(date_of(a), date_of(b)) != 0 {
        opt_int_order(date_of(a), date_of(b))
    } else if opt_int_order(quantile_of(a), quantile_of(b)) != 0 {
        opt_int_order(quantile_of(a), quantile_of(b))
    } else if opt_text_order(a.label, b.label) != 0 {
        opt_text_order(a.label, b.label)
    } else {
        text_order(a.period@, b.period@)
    }
}

/// `order` lists the rows of `keys` by key, rows with equal keys in their original order:
/// each row once, and of any two listed rows the earlier sorts first or ties and came first.
pub open spec fn stable_order(keys: Seq<RowSortKey>, order: Seq<usize>) -> bool {
    &&& order.len() == keys.len()
    &&& forall|i: int| 0 <= i < order.len() ==> #[trigger] order[i] < keys.len()
    &&& forall|i: int, j: int| 0 <= i < j < order.len() ==> #[trigger] order[i] != #[trigger] order[j]
    &&& forall|i: int, j: int|
        0 <= i < j < order.len() ==> {
            let o = key_order(keys[#[trigger] order[i] as int], keys[#[trigger] order[j] as int]);
            o < 0 || (o == 0 && order[i] < order[j])
        }
}

proof fn lemma_text_order(a: Seq<char>, b: Seq<char>, c: Seq<char>)
    ensures
        text_order(a, a) == 0,
        text_order(a, b) == -text_order(b, a),
        text_order(a, b) <= 0 && text_order(b, c) <= 0 ==> text_order(a, c) <= 0,
        text_order(a, b) <= 0 && text_order(b, c) <= 0 && (text_order(a, b) < 0 || text_order(b, c)
            < 0) ==> text_order(a, c) < 0,
{
    lemma_seq_lt_irreflexive(a);
    lemma_seq_lt_total(a, b);
    lemma_seq_lt_total(b, c);
    lemma_seq_lt_total(a, c);
    if seq_lt(a, b) {
        lemma_seq_lt_asymmetric(a, b);
    }
    if seq_lt(b, a) {
        lemma_seq_lt_asymmetric(b, a);
    }
    if seq_lt(a, b) && seq_lt(b, c) {
        lemma_seq_lt_transitive(a, b, c);
    }
    if seq_lt(a, c) {
        lemma_seq_lt_asymmetric(a, c);
    }
}

/// Key order is reflexive, antisymmetric and transitive.
pub proof fn lemma_key_order(a: RowSortKey, b: RowSortKey, c: RowSortKey)
    ensures
        key_order(a, a) == 0,
        key_order(a, b) == -key_order(b, a),
        key_order(a, b) <= 0 && key_order(b, c) <= 0 ==> key_order(a, c) <= 0,
        key_order(a, b) <= 0 && key_order(b, c) <= 0 && (key_order(a, b) < 0 || key_order(b, c)
            < 0) ==> key_order(a, c) < 0,
{
    lemma_text_order(a.period@, b.period@, c.period@);
    match (a.label, b.label, c.label) {
        (Some(x), Some(y), Some(z)) => {
            lemma_text_order(x@, y@, z@);
        },
        (Some(x), Some(y), None) => {
            lemma_text_order(x@, y@, y@);
        },
        (None, Some(y), Some(z)) => {
            lemma_text_order(y@, z@, z@);
        },
        (Some(x), None, Some(z)) => {
            lemma_text_order(x@, z@, z@);
        },
        (Some(x), None, None) => {
            lemma_text_order(x@, x@, x@);
        },
        (None, Some(y), None) => {
            lemma_text_order(y@, y@, y@);
        },
        (None, None, Some(z)) => {
            lemma_text_order(z@, z@, z@);
        },
        (None, None, None) => {},
    }
}

fn text_cmp(a: &str, b: &str) -> (r: i8)
    ensures
        r == text_order(a@, b@),
{
    if str_less(a, b) {
        -1
    } else if str_eq(a, b) {
        0
    } else {
        1
    }
}

fn compare_keys(a: &RowSortKey, b: &RowSortKey) -> (r: i8)
    ensures
        r == key_order(*a, *b),
{
    let d: i8 = match (a.date, b.date) {
        (None, None) => 0,
        (None, Some(_)) => -1,
        (Some(_), None) => 1,
        (Some(x), Some(y)) => if x < y {
            -1
        } else if x == y {
            0
        } else {
            1
        },
    };
    if d != 0 {
        return d;
    }
    let q: i8 = match (a.quantile, b.quantile) {
        (None, None) => 0,
        (None, Some(_)) => -1,
        (Some(_), None) => 1,
        (Some(x), Some(y)) => if x < y {
            -1
        } else if x == y {
            0
        } else {
            1
        },
    };
    if q != 0 {
        return q;
    }
    let l: i8 = match (&a.label, &b.label) {
        (None, None) => 0,
        (None, Some(_)) => -1,
        (Some(_), None) => 1,
        (Some(x), Some(y)) => text_cmp(x.as_str(), y.as_str()),
    };
    if l != 0 {
        return l;
    }
    text_cmp(a.period.as_str(), b.period.as_str())
}

/// The order to list rows in by their keys, keeping rows with equal keys in their original
/// order (a stable sort).
pub fn stable_row_order(keys: &[RowSortKey]) -> (r: Vec<usize>)
    ensures
        stable_order(keys@, r@),
{
    let n: usize = keys.len();
    let mut order: Vec<usize> = Vec::new();
    let mut i: usize = 0;
    while i < n
        invariant
            n == keys@.len(),
            i <= n,
            stable_order(keys@.subrange(0, i as int), order@),
            forall|k: int| 0 <= k < order@.len() ==> #[trigger] order@[k] < i,
        decreases n - i,
    {
        let ghost pre = keys@.subrange(0, i as int);
        let ghost post = keys@.subrange(0, i + 1);
        let ghost before = order@;
        proof {
            assert forall|k: int| 0 <= k < i implies #[trigger] post[k] == pre[k] && pre[k]
                == keys@[k] by {}
        }
        let mut p: usize = order.len();
        while p > 0 && compare_keys(&keys[order[p - 1]], &keys[i]) > 0
            invariant
                p <= order@.len(),
                order@ == before,
                n == keys@.len(),
                i < n,
                forall|k: int| 0 <= k < order@.len() ==> #[trigger] order@[k] < i,
                forall|q: int|
                    p <= q < order@.len() ==> key_order(keys@[#[trigger] order@[q] as int], keys@[i as int]) > 0,
            decreases p,
        {
            p = p - 1;
        }
        proof {
            if p > 0 {
                assert(key_order(keys@[order@[p - 1] as int], keys@[i as int]) <= 0);
                assert forall|q: int| 0 <= q < p implies key_order(
                    keys@[#[trigger] order@[q] as int],
                    keys@[i as int],
                ) <= 0 by {
                    if q < p - 1 {
                        assert(pre[order@[q] as int] == keys@[order@[q] as int]);
                        assert(pre[order@[p - 1] as int] == keys@[order@[p - 1] as int]);
                        lemma_key_order(
                            keys@[order@[q] as int],
                            keys@[order@[p - 1] as int],
                            keys@[i as int],
                        );
                    }
                }
            }
        }
        order.insert(p, i);
        proof {
            assert forall|k: int| 0 <= k < order@.len() implies #[trigger] order@[k] == (if k < p {
                before[k]
            } else if k == p {
                i
            } else {
                before[k - 1]
            }) by {}
            assert forall|k: int| 0 <= k < order@.len() implies #[trigger] order@[k] < post.len() by {}
            assert forall|a: int, b: int| 0 <= a < b < order@.len() implies #[trigger] order@[a]
                != #[trigger] order@[b] by {
                if a != p && b != p {
                    let x = if a < p {
                        a
                    } else {
                        a - 1
                    };
                    let y = if b < p {
                        b
                    } else {
                        b - 1
                    };
                    assert(before[x] != before[y]);
                }
            }
            assert forall|a: int, b: int| 0 <= a < b < order@.len() implies {
                let o = key_order(post[#[trigger] order@[a] as int], post[#[trigger] order@[b] as int]);
                o < 0 || (o == 0 && order@[a] < order@[b])
            } by {
                let ka = order@[a];
                let kb = order@[b];
                assert(post[ka as int] == keys@[ka as int]);
                assert(post[kb as int] == keys@[kb as int]);
                if a == p {
                    assert(kb == before[b - 1]);
                    assert(key_order(keys@[kb as int], keys@[i as int]) > 0);
                    lemma_key_order(keys@[kb as int], keys@[i as int], keys@[i as int]);
                } else if b == p {
                    assert(ka == before[a]);
                    assert(key_order(keys@[ka as int], keys@[i as int]) <= 0);
                } else {
                    let x = if a < p {
                        a
                    } else {
                        a - 1
                    };
                    let y = if b < p {
                        b
                    } else {
                        b - 1
                    };
                    assert(x < y);
                    assert(ka == before[x] && kb == before[y]);
                    assert(pre[ka as int] == keys@[ka as int]);
                    assert(pre[kb as int] == keys@[kb as int]);
                }
            }
        }
        i = i + 1;
    }
    proof {
        assert(keys@.subrange(0, n as int) =~= keys@);
    }
    order
}

} // verus!
