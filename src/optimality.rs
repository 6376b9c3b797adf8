//! Minimality of the rank matching under the squared-difference cost, by
//! an exchange argument: any other permutation can be turned into the rank
//! matching by swaps that never increase its cost.
use vstd::prelude::*;

use crate::assignment::{is_permutation, lemma_permutation_covers, lemma_swap_keeps_permutation, occurs};
use crate::cost::{pair_cost, prefix_cost, total_cost};
use crate::genetic::GeneticSolver;
use crate::optimal::{is_rank_matching, key_lt};

verus! {

/// Number of slots below `k` on which `p` and `r` differ.
pub open spec fn mismatch_count(p: Seq<usize>, r: Seq<usize>, k: int) -> nat
    decreases k,
{
    if k <= 0 {
        0
    } else {
        mismatch_count(p, r, k - 1) + (if p[k - 1] != r[k - 1] { 1nat } else { 0nat })
    }
}

proof fn lemma_mismatch_count_update(p: Seq<usize>, r: Seq<usize>, i: int, v: usize, k: int)
    requires
        0 <= i < p.len(),
        k <= p.len(),
    ensures
        mismatch_count(p.update(i, v), r, k) + (if i < k && p[i] != r[i] { 1int } else { 0int })
            == mismatch_count(p, r, k) + (if i < k && v != r[i] { 1int } else { 0int }),
    decreases k,
{
    if k > 0 {
        lemma_mismatch_count_update(p, r, i, v, k - 1);
        assert(p.update(i, v)[k - 1] == if k - 1 == i { v } else { p[k - 1] });
    }
}

proof fn lemma_mismatch_count_zero(p: Seq<usize>, r: Seq<usize>, k: int)
    requires
        0 <= k,
    ensures
        mismatch_count(p, r, k) == 0 <==> forall|d: int| 0 <= d < k ==> p[d] == r[d],
    decreases k,
{
    if k > 0 {
        lemma_mismatch_count_zero(p, r, k - 1);
    }
}

proof fn lemma_prefix_cost_update(sw: Seq<u8>, tw: Seq<u8>, a: Seq<usize>, i: int, v: usize, k: int)
    requires
        0 <= i < a.len(),
        k <= a.len(),
    ensures
        prefix_cost(sw, tw, a.update(i, v), k) + (if i < k { pair_cost(sw[a[i] as int], tw[i]) } else { 0 })
            == prefix_cost(sw, tw, a, k) + (if i < k { pair_cost(sw[v as int], tw[i]) } else { 0 }),
    decreases k,
{
    if k > 0 {
        lemma_prefix_cost_update(sw, tw, a, i, v, k - 1);
        assert(a.update(i, v)[k - 1] == if k - 1 == i { v } else { a[k - 1] });
    }
}

/// Key order is total on distinct indices.
proof fn lemma_key_total(w: Seq<u8>, i: int, j: int)
    requires
        i != j,
    ensures
        key_lt(w, i, j) || key_lt(w, j, i),
{
}

/// Finds a slot where `p` differs from `r` such that they agree on every
/// slot of smaller target key.
proof fn lemma_least_mismatch(tw: Seq<u8>, p: Seq<usize>, r: Seq<usize>, d0: int) -> (d: int)
    requires
        p.len() == tw.len(),
        r.len() == tw.len(),
        0 <= d0 < tw.len(),
        p[d0] != r[d0],
    ensures
        0 <= d < tw.len(),
        p[d] != r[d],
        forall|e: int| 0 <= e < tw.len() && #[trigger] key_lt(tw, e, d) ==> p[e] == r[e],
    decreases tw[d0] * tw.len() + d0,
{
    if exists|e: int| 0 <= e < tw.len() && #[trigger] key_lt(tw, e, d0) && p[e] != r[e] {
        let e = choose|e: int| 0 <= e < tw.len() && #[trigger] key_lt(tw, e, d0) && p[e] != r[e];
        let n = tw.len() as int;
        assert(tw[e] * n + e < tw[d0] * n + d0) by (nonlinear_arith)
            requires
                tw[e] < tw[d0] || (tw[e] == tw[d0] && e < d0),
                0 <= e < n,
                0 <= d0 < n,
        ;
        lemma_least_mismatch(tw, p, r, e)
    } else {
        d0
    }
}

/// The rank matching costs no more than any permutation of the same slots:
/// for the squared-difference cost, pairing weights in ascending order is
/// minimal (rearrangement inequality).
pub proof fn lemma_rank_matching_is_minimal(
    source_weight: Seq<u8>,
    target_weight: Seq<u8>,
    r: Seq<usize>,
    p: Seq<usize>,
)
    requires
        is_rank_matching(source_weight, target_weight, r),
        is_permutation(p, target_weight.len()),
    ensures
        total_cost(source_weight, target_weight, r) <= total_cost(source_weight, target_weight, p),
    decreases mismatch_count(p, r, target_weight.len() as int),
{
    let sw = source_weight;
    let tw = target_weight;
    let n = tw.len() as int;
    lemma_mismatch_count_zero(p, r, n);
    if mismatch_count(p, r, n) == 0 {
        assert(p =~= r);
    } else {
        let d0 = choose|d: int| 0 <= d < n && p[d] != r[d];
        let d = lemma_least_mismatch(tw, p, r, d0);
        let v = r[d];
        let u = p[d];
        // the slot e that holds r[d] in p lies after d in target key order
        lemma_permutation_covers(p, n as nat);
        assert(occurs(p, v as int));
        let e = choose|e: int| 0 <= e < n && p[e] as int == v as int;
        assert(e != d);
        lemma_key_total(tw, d, e);
        if key_lt(tw, e, d) {
            assert(p[e] == r[e]);
            assert(r[e] == r[d]);
        }
        assert(key_lt(tw, d, e));
        // the slot f to which r sends p[d] also lies after d
        lemma_permutation_covers(r, n as nat);
        assert(occurs(r, u as int));
        let f = choose|f: int| 0 <= f < n && r[f] as int == u as int;
        assert(f != d);
        lemma_key_total(tw, d, f);
        if key_lt(tw, f, d) {
            assert(p[f] == r[f]);
            assert(p[f] == p[d]);
        }
        assert(key_lt(tw, d, f));
        assert(key_lt(sw, r[d] as int, r[f] as int));
        let s1 = sw[v as int] as int;
        let s2 = sw[u as int] as int;
        let t1 = tw[d] as int;
        let t2 = tw[e] as int;
        assert(s1 <= s2);
        assert(t1 <= t2);
        let q1 = p.update(d, v);
        let q = q1.update(e, u);
        assert(q == p.update(d, p[e]).update(e, p[d]));
        lemma_swap_keeps_permutation(p, n as nat, d, e);
        lemma_prefix_cost_update(sw, tw, p, d, v, n);
        lemma_prefix_cost_update(sw, tw, q1, e, u, n);
        assert((s1 - t1) * (s1 - t1) + (s2 - t2) * (s2 - t2) <= (s2 - t1) * (s2 - t1) + (s1 - t2) * (
        s1 - t2)) by (nonlinear_arith)
            requires
                s1 <= s2,
                t1 <= t2,
        ;
        assert(total_cost(sw, tw, q) <= total_cost(sw, tw, p));
        lemma_mismatch_count_update(p, r, d, v, n);
        lemma_mismatch_count_update(q1, r, e, u, n);
        assert(mismatch_count(q, r, n) < mismatch_count(p, r, n));
        lemma_rank_matching_is_minimal(sw, tw, r, q);
    }
}

/// The rank matching is unique: equal weights, ties included, always give
/// the same assignment.
pub proof fn lemma_rank_matching_unique(
    source_weight: Seq<u8>,
    target_weight: Seq<u8>,
    r1: Seq<usize>,
    r2: Seq<usize>,
)
    requires
        is_rank_matching(source_weight, target_weight, r1),
        is_rank_matching(source_weight, target_weight, r2),
    ensures
        r1 == r2,
{
    let sw = source_weight;
    let tw = target_weight;
    let n = tw.len() as int;
    lemma_mismatch_count_zero(r2, r1, n);
    if mismatch_count(r2, r1, n) == 0 {
        assert(r1 =~= r2);
    } else {
        let d0 = choose|d: int| 0 <= d < n && r2[d] != r1[d];
        let d = lemma_least_mismatch(tw, r2, r1, d0);
        lemma_permutation_covers(r1, n as nat);
        lemma_permutation_covers(r2, n as nat);
        let u = r2[d];
        assert(occurs(r1, u as int));
        let f = choose|f: int| 0 <= f < n && r1[f] as int == u as int;
        lemma_key_total(tw, d, f);
        if key_lt(tw, f, d) {
            assert(r2[f] == r1[f]);
        }
        assert(key_lt(sw, r1[d] as int, r1[f] as int));
        let v = r1[d];
        assert(occurs(r2, v as int));
        let g = choose|g: int| 0 <= g < n && r2[g] as int == v as int;
        lemma_key_total(tw, d, g);
        if key_lt(tw, g, d) {
            assert(r2[g] == r1[g]);
        }
        assert(key_lt(sw, r2[d] as int, r2[g] as int));
    }
}

/// A genetic run seeded with the rank matching never ends worse than it:
/// its best candidate costs exactly what the rank matching costs.
pub proof fn lemma_genetic_best_equals_rank_matching_cost(g: GeneticSolver)
    requires
        g.wf(),
    ensures
        g.best_cost as int == total_cost(g.source_weight@, g.target_weight@, g.baseline@),
{
    lemma_rank_matching_is_minimal(g.source_weight@, g.target_weight@, g.baseline@, g.best@);
}

} // verus!
