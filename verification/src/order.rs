//! Stable ordering of lists by a text key, as `sort_by` on the key gives.

use vstd::prelude::*;
use crate::strmap::{compare, lemma_lt_irreflexive, lemma_lt_total, lemma_lt_transitive, seq_lt};
use crate::text::{chars_of, views};

verus! {

/// Position `a` goes before position `b`: its key comes first, or the keys
/// are equal and it came first.
pub open spec fn goes_before(keys: Seq<Seq<char>>, a: int, b: int) -> bool {
    seq_lt(keys[a], keys[b]) || (keys[a] == keys[b] && a < b)
}

/// `r` lists the positions of `keys` in the order of a stable sort by key.
pub open spec fn is_sorted_order(keys: Seq<Seq<char>>, r: Seq<usize>) -> bool {
    &&& r.len() == keys.len()
    &&& forall|k: int| 0 <= k < r.len() ==> #[trigger] r[k] < keys.len()
    &&& forall|a: int, b: int|
        0 <= a < b < r.len() ==> goes_before(keys, #[trigger] r[a] as int, #[trigger] r[b] as int)
}

/// The positions of `keys`, in the order of a stable sort by key.
pub fn sorted_order(keys: &Vec<String>) -> (r: Vec<usize>)
    ensures
        is_sorted_order(views(keys@), r@),
{
    let ghost ks = views(keys@);
    let n = keys.len();
    let mut cs: Vec<Vec<char>> = Vec::new();
    let mut i: usize = 0;
    while i < n
        invariant
            0 <= i <= n,
            n == keys@.len(),
            ks == views(keys@),
            cs@.len() == i,
            forall|k: int| 0 <= k < i ==> (#[trigger] cs@[k])@ == ks[k],
        decreases n - i,
    {
        cs.push(chars_of(keys[i].as_str()));
        i = i + 1;
    }
    let mut r: Vec<usize> = Vec::new();
    let mut i: usize = 0;
    while i < n
        invariant
            0 <= i <= n,
            n == keys@.len(),
            ks == views(keys@),
            ks.len() == n,
            cs@.len() == n,
            forall|k: int| 0 <= k < n ==> (#[trigger] cs@[k])@ == ks[k],
            r@.len() == i,
            forall|k: int| 0 <= k < r@.len() ==> #[trigger] r@[k] < i,
            forall|a: int, b: int|
                0 <= a < b < r@.len() ==> goes_before(ks, #[trigger] r@[a] as int, #[trigger] r@[b] as int),
        decreases n - i,
    {
        let mut p: usize = 0;
        while p < r.len() && compare(cs[r[p]].as_slice(), cs[i].as_slice()) <= 0
            invariant
                0 <= p <= r@.len(),
                i < n,
                cs@.len() == n,
                forall|k: int| 0 <= k < n ==> (#[trigger] cs@[k])@ == ks[k],
                forall|k: int| 0 <= k < r@.len() ==> #[trigger] r@[k] < i,
                forall|q: int| 0 <= q < p ==> !seq_lt(ks[i as int], #[trigger] ks[r@[q] as int]),
            decreases r@.len() - p,
        {
            p = p + 1;
        }
        proof {
            assert forall|q: int| p <= q < r@.len() implies seq_lt(ks[i as int], #[trigger] ks[r@[q] as int]) by {
                assert(seq_lt(ks[i as int], ks[r@[p as int] as int]));
                if q > p {
                    assert(goes_before(ks, r@[p as int] as int, r@[q] as int));
                    if seq_lt(ks[r@[p as int] as int], ks[r@[q] as int]) {
                        lemma_lt_transitive(ks[i as int], ks[r@[p as int] as int], ks[r@[q] as int]);
                    }
                }
            }
        }
        let ghost old_r = r@;
        r.insert(p, i);
        proof {
            assert forall|a: int, b: int| 0 <= a < b < r@.len() implies goes_before(
                ks,
                #[trigger] r@[a] as int,
                #[trigger] r@[b] as int,
            ) by {
                if b < p {
                    assert(r@[a] == old_r[a] && r@[b] == old_r[b]);
                } else if b == p {
                    assert(r@[a] == old_r[a]);
                    lemma_lt_total(ks[i as int], ks[old_r[a] as int]);
                } else if a == p {
                    assert(r@[b] == old_r[b - 1]);
                } else if a < p {
                    assert(r@[a] == old_r[a] && r@[b] == old_r[b - 1]);
                } else {
                    assert(r@[a] == old_r[a - 1] && r@[b] == old_r[b - 1]);
                }
            }
        }
        i = i + 1;
    }
    r
}

/// A stable sort's positions are each position once: every position of the
/// keys appears in the order, and no two entries of the order are equal.
pub proof fn lemma_sorted_order_permutes(keys: Seq<Seq<char>>, r: Seq<usize>)
    requires
        is_sorted_order(keys, r),
    ensures
        forall|a: int, b: int| 0 <= a < b < r.len() ==> r[a] != r[b],
        forall|i: usize| i < keys.len() ==> #[trigger] r.contains(i),
{
    assert forall|a: int, b: int| 0 <= a < b < r.len() implies r[a] != r[b] by {
        assert(goes_before(keys, r[a] as int, r[b] as int));
        if r[a] == r[b] {
            lemma_lt_irreflexive(keys[r[a] as int]);
        }
    }
    let ri = r.map_values(|x: usize| x as int);
    let s = ri.to_set();
    let full = Set::new(|i: int| 0 <= i < keys.len());
    assert(ri.no_duplicates()) by {
        assert forall|a: int, b: int|
            0 <= a < ri.len() && 0 <= b < ri.len() && a != b implies #[trigger] ri[a] != #[trigger] ri[b] by {
            if a < b {
                assert(r[a] != r[b]);
            } else {
                assert(r[b] != r[a]);
            }
        }
    }
    ri.unique_seq_to_set();
    assert(s.subset_of(full));
    vstd::set_lib::lemma_int_range(0, keys.len() as int);
    assert(full =~= vstd::set_lib::set_int_range(0, keys.len() as int));
    vstd::seq_lib::seq_to_set_is_finite(ri);
    vstd::set_lib::lemma_subset_equality(s, full);
    assert forall|i: usize| i < keys.len() implies #[trigger] r.contains(i) by {
        assert(full.contains(i as int));
        assert(s.contains(i as int));
        let k = choose|k: int| 0 <= k < ri.len() && ri[k] == i as int;
        assert(r[k] == i);
    }
}

} // verus!
