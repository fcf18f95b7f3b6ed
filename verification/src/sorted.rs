use vstd::prelude::*;

use crate::text::{lemma_seq_lt_total, lemma_seq_lt_transitive, seq_lt, str_eq, str_less};

verus! {

/// The texts of a list of strings.
pub open spec fn texts(v: Seq<String>) -> Seq<Seq<char>> {
    v.map_values(|s: String| s@)
}

/// Strictly increasing in text order, so also free of repeats.
pub open spec fn texts_sorted(v: Seq<Seq<char>>) -> bool {
    forall|i: int, j: int| 0 <= i < j < v.len() ==> seq_lt(#[trigger] v[i], #[trigger] v[j])
}

pub open spec fn u32s_sorted(v: Seq<u32>) -> bool {
    forall|i: int, j: int| 0 <= i < j < v.len() ==> v[i] < v[j]
}

pub open spec fn u64s_sorted(v: Seq<u64>) -> bool {
    forall|i: int, j: int| 0 <= i < j < v.len() ==> v[i] < v[j]
}

/// Adds `x` to a strictly increasing list of numbers, unless it is already there.
pub fn insert_sorted_u32(v: &mut Vec<u32>, x: u32)
    requires
        u32s_sorted(old(v)@),
    ensures
        u32s_sorted(final(v)@),
        forall|y: u32| #[trigger] final(v)@.contains(y) <==> (old(v)@.contains(y) || y == x),
{
    let ghost before = v@;
    let mut j: usize = 0;
    while j < v.len() && v[j] < x
        invariant
            j <= v@.len(),
            v@ == before,
            forall|k: int| 0 <= k < j ==> before[k] < x,
        decreases v@.len() - j,
    {
        j = j + 1;
    }
    if j < v.len() && v[j] == x {
        assert(before[j as int] == x);
        return;
    }
    v.insert(j, x);
    let ghost after = v@;
    proof {
        assert forall|k: int| 0 <= k < after.len() implies #[trigger] after[k] == (if k < j {
            before[k]
        } else if k == j {
            x
        } else {
            before[k - 1]
        }) by {}
        assert forall|y: u32| after.contains(y) <==> (before.contains(y) || y == x) by {
            if after.contains(y) {
                let k = choose|k: int| 0 <= k < after.len() && after[k] == y;
                if k < j {
                    assert(before[k] == y);
                } else if k > j {
                    assert(before[k - 1] == y);
                }
            }
            if before.contains(y) {
                let k = choose|k: int| 0 <= k < before.len() && before[k] == y;
                if k < j {
                    assert(after[k] == y);
                } else {
                    assert(after[k + 1] == y);
                }
            }
            if y == x {
                assert(after[j as int] == y);
            }
        }
    }
}

/// Adds `x` to a strictly increasing list of numbers, unless it is already there.
pub fn insert_sorted_u64(v: &mut Vec<u64>, x: u64)
    requires
        u64s_sorted(old(v)@),
    ensures
        u64s_sorted(final(v)@),
        forall|y: u64| #[trigger] final(v)@.contains(y) <==> (old(v)@.contains(y) || y == x),
{
    let ghost before = v@;
    let mut j: usize = 0;
    while j < v.len() && v[j] < x
        invariant
            j <= v@.len(),
            v@ == before,
            forall|k: int| 0 <= k < j ==> before[k] < x,
        decreases v@.len() - j,
    {
        j = j + 1;
    }
    if j < v.len() && v[j] == x {
        assert(before[j as int] == x);
        return;
    }
    v.insert(j, x);
    let ghost after = v@;
    proof {
        assert forall|k: int| 0 <= k < after.len() implies #[trigger] after[k] == (if k < j {
            before[k]
        } else if k == j {
            x
        } else {
            before[k - 1]
        }) by {}
        assert forall|y: u64| after.contains(y) <==> (before.contains(y) || y == x) by {
            if after.contains(y) {
                let k = choose|k: int| 0 <= k < after.len() && after[k] == y;
                if k < j {
                    assert(before[k] == y);
                } else if k > j {
                    assert(before[k - 1] == y);
                }
            }
            if before.contains(y) {
                let k = choose|k: int| 0 <= k < before.len() && before[k] == y;
                if k < j {
                    assert(after[k] == y);
                } else {
                    assert(after[k + 1] == y);
                }
            }
            if y == x {
                assert(after[j as int] == y);
            }
        }
    }
}

/// Adds `x` to a list of strings in strictly increasing text order, unless its text is
/// already there.
pub fn insert_sorted_text(v: &mut Vec<String>, x: String)
    requires
        texts_sorted(texts(old(v)@)),
    ensures
        texts_sorted(texts(final(v)@)),
        forall|t: Seq<char>| texts(final(v)@).contains(t) <==> (texts(old(v)@).contains(t) || t == x@),
{
    let ghost before = texts(v@);
    let mut j: usize = 0;
    while j < v.len() && str_less(v[j].as_str(), x.as_str())
        invariant
            j <= v@.len(),
            texts(v@) == before,
            forall|k: int| 0 <= k < j ==> seq_lt(#[trigger] before[k], x@),
        decreases v@.len() - j,
    {
        assert(before[j as int] == v@[j as int]@);
        j = j + 1;
    }
    if j < v.len() && str_eq(v[j].as_str(), x.as_str()) {
        assert(before[j as int] == x@);
        return;
    }
    proof {
        if j < before.len() {
            assert(before[j as int] == v@[j as int]@);
            lemma_seq_lt_total(before[j as int], x@);
        }
    }
    let ghost xv = x@;
    v.insert(j, x);
    let ghost after = texts(v@);
    proof {
        assert(after.len() == before.len() + 1);
        assert forall|k: int| 0 <= k < after.len() implies #[trigger] after[k] == (if k < j {
            before[k]
        } else if k == j {
            xv
        } else {
            before[k - 1]
        }) by {}
        assert forall|a: int, b: int| 0 <= a < b < after.len() implies seq_lt(
            #[trigger] after[a],
            #[trigger] after[b],
        ) by {
            if a < j && b == j {
            } else if a < j && b > j {
                assert(seq_lt(before[a], before[b - 1]));
            } else if a == j && b > j {
                if b - 1 > j {
                    assert(seq_lt(before[j as int], before[b - 1]));
                    lemma_seq_lt_transitive(xv, before[j as int], before[b - 1]);
                }
            } else if a > j {
                assert(seq_lt(before[a - 1], before[b - 1]));
            } else {
                assert(seq_lt(before[a], before[b]));
            }
        }
        assert forall|t: Seq<char>| after.contains(t) <==> (before.contains(t) || t == xv) by {
            if after.contains(t) {
                let k = choose|k: int| 0 <= k < after.len() && after[k] == t;
                if k < j {
                    assert(before[k] == t);
                } else if k > j {
                    assert(before[k - 1] == t);
                }
            }
            if before.contains(t) {
                let k = choose|k: int| 0 <= k < before.len() && before[k] == t;
                if k < j {
                    assert(after[k] == t);
                } else {
                    assert(after[k + 1] == t);
                }
            }
            if t == xv {
                assert(after[j as int] == t);
            }
        }
    }
}

} // verus!
