//! The rank-matching solver: the k-th lightest destination slot receives the
//! k-th lightest source pixel, ties broken by index.
use vstd::prelude::*;

use crate::assignment::{is_permutation, occurs};

verus! {

/// Strict order on indices by `(w[i], i)`: by weight, then by index.
pub open spec fn key_lt(w: Seq<u8>, i: int, j: int) -> bool {
    w[i] < w[j] || (w[i] == w[j] && i < j)
}

/// `ord` lists every index of `w` once, in ascending `(weight, index)` order.
pub open spec fn is_rank_order(w: Seq<u8>, ord: Seq<usize>) -> bool {
    &&& is_permutation(ord, w.len())
    &&& forall|p: int, q: int|
        0 <= p < q < ord.len() ==> #[trigger] key_lt(w, ord[p] as int, ord[q] as int)
}

/// `a` is the rank matching of `source_weight` onto `target_weight`: a
/// permutation that carries the key order of destination slots onto the key
/// order of the source pixels assigned to them.
pub open spec fn is_rank_matching(source_weight: Seq<u8>, target_weight: Seq<u8>, a: Seq<usize>) -> bool {
    &&& source_weight.len() == target_weight.len()
    &&& is_permutation(a, target_weight.len())
    &&& forall|d1: int, d2: int|
        0 <= d1 < a.len() && 0 <= d2 < a.len() && #[trigger] key_lt(target_weight, d1, d2)
            ==> key_lt(source_weight, a[d1] as int, a[d2] as int)
}

/// A sequence of distinct entries below `n` in which every value below `n`
/// occurs is a permutation of `[0, n)`.
pub proof fn lemma_distinct_covering_is_permutation(a: Seq<usize>, n: nat)
    requires
        forall|j: int| 0 <= j < a.len() ==> (#[trigger] a[j] as int) < n,
        forall|j: int, l: int| 0 <= j < a.len() && 0 <= l < a.len() && j != l ==> a[j] != a[l],
        forall|x: int| 0 <= x < n ==> #[trigger] occurs(a, x),
    ensures
        is_permutation(a, n),
{
    let t = a.map_values(|v: usize| v as int);
    assert(t.no_duplicates()) by {
        assert forall|j: int, l: int| 0 <= j < t.len() && 0 <= l < t.len() && j != l implies t[j]
            != t[l] by {
            assert(a[j] != a[l]);
        }
    }
    t.unique_seq_to_set();
    vstd::set_lib::lemma_int_range(0, n as int);
    let r = vstd::set_lib::set_int_range(0, n as int);
    assert(t.to_set() =~= r) by {
        assert forall|x: int| t.to_set().contains(x) implies r.contains(x) by {
            let j = choose|j: int| 0 <= j < t.len() && t[j] == x;
            assert(a[j] as int == x);
        }
        assert forall|x: int| r.contains(x) implies t.to_set().contains(x) by {
            assert(occurs(a, x));
            let j = choose|j: int| 0 <= j < a.len() && a[j] as int == x;
            assert(t[j] == x);
        }
    }
}

/// Lists the indices of `w` in ascending `(weight, index)` order: a stable
/// sort of the index set by weight.
pub fn rank_order(w: &Vec<u8>) -> (r: Vec<usize>)
    ensures
        is_rank_order(w@, r@),
{
    let n = w.len();
    let mut out: Vec<usize> = Vec::new();
    let mut k: u16 = 0;
    while k < 256
        invariant
            k <= 256,
            n == w@.len(),
            forall|p: int| 0 <= p < out@.len() ==> (#[trigger] out@[p] as int) < n && w@[out@[p] as int] < k,
            forall|p: int, q: int|
                0 <= p < q < out@.len() ==> #[trigger] key_lt(w@, out@[p] as int, out@[q] as int),
            forall|x: int| 0 <= x < n && w@[x] < k ==> #[trigger] occurs(out@, x),
        decreases 256 - k,
    {
        let mut i: usize = 0;
        while i < n
            invariant
                k < 256,
                i <= n,
                n == w@.len(),
                forall|p: int|
                    0 <= p < out@.len() ==> (#[trigger] out@[p] as int) < n && (w@[out@[p] as int] < k
                        || (w@[out@[p] as int] == k && out@[p] < i)),
                forall|p: int, q: int|
                    0 <= p < q < out@.len() ==> #[trigger] key_lt(
                        w@,
                        out@[p] as int,
                        out@[q] as int,
                    ),
                forall|x: int|
                    0 <= x < n && (w@[x] < k || (w@[x] == k && x < i)) ==> #[trigger] occurs(out@, x),
            decreases n - i,
        {
            if w[i] as u16 == k {
                let ghost before = out@;
                out.push(i);
                proof {
                    assert forall|x: int|
                        0 <= x < n && (w@[x] < k || (w@[x] == k && x < i + 1)) implies #[trigger] occurs(
                        out@,
                        x,
                    ) by {
                        if x == i as int {
                            assert(out@[before.len() as int] as int == x);
                        } else {
                            assert(occurs(before, x));
                            let j = choose|j: int| 0 <= j < before.len() && before[j] as int == x;
                            assert(out@[j] as int == x);
                        }
                    }
                    assert forall|p: int, q: int| 0 <= p < q < out@.len() implies #[trigger] key_lt(
                        w@,
                        out@[p] as int,
                        out@[q] as int,
                    ) by {
                        if q == before.len() {
                            assert(out@[p] == before[p]);
                        } else {
                            assert(key_lt(w@, before[p] as int, before[q] as int));
                        }
                    }
                }
            }
            i = i + 1;
        }
        k = k + 1;
    }
    proof {
        assert forall|j: int, l: int|
            0 <= j < out@.len() && 0 <= l < out@.len() && j != l implies out@[j] != out@[l] by {
            if j < l {
                assert(key_lt(w@, out@[j] as int, out@[l] as int));
            } else {
                assert(key_lt(w@, out@[l] as int, out@[j] as int));
            }
        }
        lemma_distinct_covering_is_permutation(out@, n as nat);
    }
    out
}

/// The exact solver: stable-sorts source pixels and destination slots by
/// weight and gives the k-th ranked slot the k-th ranked pixel. For the
/// squared-difference cost this pairing is cost-minimal.
pub fn solve_optimal(source_weight: &Vec<u8>, target_weight: &Vec<u8>) -> (r: Vec<usize>)
    requires
        source_weight@.len() == target_weight@.len(),
    ensures
        is_rank_matching(source_weight@, target_weight@, r@),
{
    let n = target_weight.len();
    let src = rank_order(source_weight);
    let dst = rank_order(target_weight);
    let mut r: Vec<usize> = Vec::new();
    let mut k: usize = 0;
    while k < n
        invariant
            k <= n,
            r@.len() == k,
        decreases n - k,
    {
        r.push(0);
        k = k + 1;
    }
    let mut k: usize = 0;
    while k < n
        invariant
            n == target_weight@.len(),
            n == source_weight@.len(),
            is_rank_order(source_weight@, src@),
            is_rank_order(target_weight@, dst@),
            k <= n,
            r@.len() == n,
            forall|j: int| 0 <= j < k ==> #[trigger] r@[dst@[j] as int] == src@[j],
        decreases n - k,
    {
        let ghost before = r@;
        r.set(dst[k], src[k]);
        proof {
            assert forall|j: int| 0 <= j < k + 1 implies #[trigger] r@[dst@[j] as int] == src@[j] by {
                if j < k {
                    assert(dst@[j] != dst@[k as int]);
                    assert(before[dst@[j] as int] == src@[j]);
                }
            }
        }
        k = k + 1;
    }
    proof {
        crate::assignment::lemma_permutation_covers(dst@, n as nat);
        // position of each destination slot in the target ranking
        assert forall|d: int| 0 <= d < n implies exists|j: int|
            0 <= j < n && dst@[j] as int == d && #[trigger] r@[d] == src@[j] by {
            assert(occurs(dst@, d));
            let j = choose|j: int| 0 <= j < dst@.len() && dst@[j] as int == d;
            assert(r@[dst@[j] as int] == src@[j]);
        }
        assert forall|d: int| 0 <= d < n implies (#[trigger] r@[d] as int) < n by {
            let j = choose|j: int| 0 <= j < n && dst@[j] as int == d && r@[d] == src@[j];
        }
        assert forall|d1: int, d2: int|
            0 <= d1 < n && 0 <= d2 < n && d1 != d2 implies r@[d1] != r@[d2] by {
            let j1 = choose|j: int| 0 <= j < n && dst@[j] as int == d1 && r@[d1] == src@[j];
            let j2 = choose|j: int| 0 <= j < n && dst@[j] as int == d2 && r@[d2] == src@[j];
            assert(j1 != j2);
        }
        assert forall|d1: int, d2: int|
            0 <= d1 < n && 0 <= d2 < n && #[trigger] key_lt(target_weight@, d1, d2) implies key_lt(
            source_weight@,
            r@[d1] as int,
            r@[d2] as int,
        ) by {
            let j1 = choose|j: int| 0 <= j < n && dst@[j] as int == d1 && r@[d1] == src@[j];
            let j2 = choose|j: int| 0 <= j < n && dst@[j] as int == d2 && r@[d2] == src@[j];
            if j2 < j1 {
                assert(key_lt(target_weight@, dst@[j2] as int, dst@[j1] as int));
            } else if j1 == j2 {
            } else {
                assert(key_lt(source_weight@, src@[j1] as int, src@[j2] as int));
            }
        }
    }
    r
}

} // verus!
