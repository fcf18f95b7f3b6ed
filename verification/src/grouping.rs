use vstd::prelude::*;

verus! {

/// The key that rows are grouped by: up to four integers, compared in turn.
pub type CellKey = (i64, i64, i64, i64);

/// `a` comes before `b`: the first place where they differ is smaller in `a`.
pub open spec fn key_lt(a: CellKey, b: CellKey) -> bool {
    ||| a.0 < b.0
    ||| (a.0 == b.0 && a.1 < b.1)
    ||| (a.0 == b.0 && a.1 == b.1 && a.2 < b.2)
    ||| (a.0 == b.0 && a.1 == b.1 && a.2 == b.2 && a.3 < b.3)
}

/// Strictly increasing keys, so also free of repeats.
pub open spec fn keys_sorted(s: Seq<CellKey>) -> bool {
    forall|a: int, b: int| 0 <= a < b < s.len() ==> key_lt(#[trigger] s[a], #[trigger] s[b])
}

/// The positions of the rows whose key is `k`, in increasing order.
pub open spec fn indexes_with(keys: Seq<CellKey>, k: CellKey) -> Seq<usize>
    decreases keys.len(),
{
    if keys.len() == 0 {
        Seq::empty()
    } else {
        let rest = indexes_with(keys.drop_last(), k);
        if keys.last() == k {
            rest.push((keys.len() - 1) as usize)
        } else {
            rest
        }
    }
}

/// Rows grouped by key: each distinct key once, in increasing order, beside the positions
/// of its rows.
pub struct Groups {
    pub keys: Vec<CellKey>,
    pub members: Vec<Vec<usize>>,
}

fn key_less(a: CellKey, b: CellKey) -> (r: bool)
    ensures
        r == key_lt(a, b),
{
    if a.0 != b.0 {
        a.0 < b.0
    } else if a.1 != b.1 {
        a.1 < b.1
    } else if a.2 != b.2 {
        a.2 < b.2
    } else {
        a.3 < b.3
    }
}

pub(crate) fn key_equal(a: CellKey, b: CellKey) -> (r: bool)
    ensures
        r == (a == b),
{
    a.0 == b.0 && a.1 == b.1 && a.2 == b.2 && a.3 == b.3
}

/// Where `key` belongs in strictly increasing keys: after every smaller key and before
/// the rest.
pub(crate) fn key_position(keys: &Vec<CellKey>, key: CellKey) -> (p: usize)
    requires
        keys_sorted(keys@),
    ensures
        p <= keys@.len(),
        forall|g: int| 0 <= g < p ==> key_lt(#[trigger] keys@[g], key),
        forall|g: int| p <= g < keys@.len() ==> !key_lt(#[trigger] keys@[g], key),
{
    let mut lo: usize = 0;
    let mut hi: usize = keys.len();
    while lo < hi
        invariant
            hi <= keys@.len(),
            lo <= hi,
            keys_sorted(keys@),
            forall|g: int| 0 <= g < lo ==> key_lt(#[trigger] keys@[g], key),
            forall|g: int| hi <= g < keys@.len() ==> !key_lt(#[trigger] keys@[g], key),
        decreases hi - lo,
    {
        let mid: usize = lo + (hi - lo) / 2;
        if key_less(keys[mid], key) {
            lo = mid + 1;
        } else {
            hi = mid;
        }
    }
    lo
}

/// A key that no row has has no positions.
proof fn lemma_indexes_absent(keys: Seq<CellKey>, k: CellKey)
    requires
        !keys.contains(k),
    ensures
        indexes_with(keys, k) == Seq::<usize>::empty(),
    decreases keys.len(),
{
    if keys.len() > 0 {
        assert(!keys.drop_last().contains(k)) by {
            if keys.drop_last().contains(k) {
                let j = choose|j: int| 0 <= j < keys.drop_last().len() && keys.drop_last()[j] == k;
                assert(keys[j] == k);
            }
        }
        lemma_indexes_absent(keys.drop_last(), k);
        assert(keys.last() != k);
    }
}

/// Groups rows by their keys, as a map from key to the list of positions with that key
/// would: the distinct keys in increasing order, and for each the positions of the rows
/// that carry it, in order.
pub fn grouped_indexes(keys: &[CellKey]) -> (r: Groups)
    ensures
        keys_sorted(r.keys@),
        r.members@.len() == r.keys@.len(),
        forall|g: int| 0 <= g < r.keys@.len() ==> keys@.contains(#[trigger] r.keys@[g]),
        forall|i: int| 0 <= i < keys@.len() ==> r.keys@.contains(#[trigger] keys@[i]),
        forall|g: int|
            0 <= g < r.keys@.len() ==> #[trigger] r.members@[g]@ == indexes_with(keys@, r.keys@[g]),
{
    let n: usize = keys.len();
    let mut out_keys: Vec<CellKey> = Vec::new();
    let mut members: Vec<Vec<usize>> = Vec::new();
    let mut i: usize = 0;
    while i < n
        invariant
            n == keys@.len(),
            i <= n,
            keys_sorted(out_keys@),
            members@.len() == out_keys@.len(),
            forall|g: int|
                0 <= g < out_keys@.len() ==> keys@.subrange(0, i as int).contains(
                    #[trigger] out_keys@[g],
                ),
            forall|j: int| 0 <= j < i ==> out_keys@.contains(#[trigger] keys@[j]),
            forall|g: int|
                0 <= g < out_keys@.len() ==> #[trigger] members@[g]@ == indexes_with(
                    keys@.subrange(0, i as int),
                    out_keys@[g],
                ),
        decreases n - i,
    {
        let key = keys[i];
        let ghost pre = keys@.subrange(0, i as int);
        let ghost post = keys@.subrange(0, i + 1);
        assert(post.drop_last() =~= pre);
        assert(post.last() == key);
        let p: usize = key_position(&out_keys, key);
        let ghost before_keys = out_keys@;
        let ghost before_members = members@;
        if p < out_keys.len() && key_equal(out_keys[p], key) {
            members[p].push(i);
            proof {
                assert forall|g: int| 0 <= g < out_keys@.len() implies #[trigger] members@[g]@
                    == indexes_with(post, out_keys@[g]) by {
                    if g != p {
                        assert(members@[g] == before_members[g]);
                        assert(out_keys@[g] != key) by {
                            if g < p {
                                assert(key_lt(out_keys@[g], out_keys@[p as int]));
                            } else {
                                assert(key_lt(out_keys@[p as int], out_keys@[g]));
                            }
                        }
                    }
                }
                assert forall|g: int| 0 <= g < out_keys@.len() implies post.contains(
                    #[trigger] out_keys@[g],
                ) by {
                    let j = choose|j: int| 0 <= j < pre.len() && pre[j] == out_keys@[g];
                    assert(post[j] == out_keys@[g]);
                }
                assert forall|j: int| 0 <= j < i + 1 implies out_keys@.contains(#[trigger] keys@[j]) by {
                    if j == i {
                        assert(out_keys@[p as int] == key);
                    }
                }
            }
        } else {
            proof {
                assert(!pre.contains(key)) by {
                    if pre.contains(key) {
                        let j = choose|j: int| 0 <= j < pre.len() && pre[j] == key;
                        assert(keys@[j] == key);
                        assert(before_keys.contains(key));
                        let g = choose|g: int| 0 <= g < before_keys.len() && before_keys[g] == key;
                        if g < p {
                            assert(key_lt(before_keys[g], key));
                        } else if g > p {
                            assert(!key_lt(before_keys[p as int], key));
                            assert(key_lt(before_keys[p as int], before_keys[g]));
                        }
                    }
                }
                lemma_indexes_absent(pre, key);
            }
            out_keys.insert(p, key);
            let mut fresh: Vec<usize> = Vec::new();
            fresh.push(i);
            members.insert(p, fresh);
            proof {
                assert forall|g: int| 0 <= g < out_keys@.len() implies #[trigger] out_keys@[g] == (
                if g < p {
                    before_keys[g]
                } else if g == p {
                    key
                } else {
                    before_keys[g - 1]
                }) by {}
                assert forall|g: int| 0 <= g < members@.len() implies #[trigger] members@[g] == (
                if g < p {
                    before_members[g]
                } else if g == p {
                    fresh
                } else {
                    before_members[g - 1]
                }) by {}
                assert forall|a: int, b: int| 0 <= a < b < out_keys@.len() implies key_lt(
                    #[trigger] out_keys@[a],
                    #[trigger] out_keys@[b],
                ) by {
                    if a < p && b == p {
                        assert(key_lt(before_keys[a], key));
                    } else if a == p && b > p {
                        assert(!key_lt(before_keys[b - 1], key));
                        assert(before_keys[b - 1] != key);
                    } else if a < p && b > p {
                        assert(key_lt(before_keys[a], before_keys[b - 1]));
                    } else if a > p {
                        assert(key_lt(before_keys[a - 1], before_keys[b - 1]));
                    }
                }
                assert forall|g: int| 0 <= g < out_keys@.len() implies #[trigger] members@[g]@
                    == indexes_with(post, out_keys@[g]) by {
                    if g == p {
                        assert(fresh@ =~= Seq::<usize>::empty().push(i));
                    } else {
                        let b = if g < p {
                            g
                        } else {
                            g - 1
                        };
                        assert(before_keys[b] != key) by {
                            if before_keys[b] == key {
                                let j = choose|j: int| 0 <= j < pre.len() && pre[j] == before_keys[b];
                                assert(pre.contains(key));
                            }
                        }
                        assert(members@[g] == before_members[b]);
                    }
                }
                assert forall|g: int| 0 <= g < out_keys@.len() implies post.contains(
                    #[trigger] out_keys@[g],
                ) by {
                    if g == p {
                        assert(post[i as int] == key);
                    } else {
                        let b = if g < p {
                            g
                        } else {
                            g - 1
                        };
                        let j = choose|j: int| 0 <= j < pre.len() && pre[j] == before_keys[b];
                        assert(post[j] == before_keys[b]);
                    }
                }
                assert forall|j: int| 0 <= j < i + 1 implies out_keys@.contains(#[trigger] keys@[j]) by {
                    if j == i {
                        assert(out_keys@[p as int] == key);
                    } else {
                        let g = choose|g: int| 0 <= g < before_keys.len() && before_keys[g] == keys@[j];
                        if g < p {
                            assert(out_keys@[g] == keys@[j]);
                        } else {
                            assert(out_keys@[g + 1] == keys@[j]);
                        }
                    }
                }
            }
        }
        i = i + 1;
    }
    proof {
        assert(keys@.subrange(0, n as int) =~= keys@);
    }
    Groups { keys: out_keys, members }
}

} // verus!
