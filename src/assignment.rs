//! Assignments (permutations from destination slots to source pixels) and
//! their application to RGB pixel buffers.
use vstd::prelude::*;
use vstd::set_lib::{lemma_int_range, lemma_subset_equality, set_int_range};

use crate::error::EngineError;

verus! {

/// Bytes per pixel of a colour buffer.
pub const CHANNELS: usize = 3;

/// `a` is a permutation of `[0, n)`: length `n`, every entry below `n`,
/// no entry repeated.
pub open spec fn is_permutation(a: Seq<usize>, n: nat) -> bool {
    &&& a.len() == n
    &&& forall|j: int| 0 <= j < n ==> (#[trigger] a[j] as int) < n
    &&& forall|j: int, l: int| 0 <= j < n && 0 <= l < n && j != l ==> a[j] != a[l]
}

/// `b` undoes `a`: `b[a[d]] == d` and `a[b[s]] == s` for every slot.
pub open spec fn is_inverse(a: Seq<usize>, b: Seq<usize>) -> bool {
    &&& a.len() == b.len()
    &&& forall|d: int| 0 <= d < a.len() ==> (#[trigger] a[d] as int) < b.len() && b[a[d] as int] == d
    &&& forall|s: int| 0 <= s < b.len() ==> (#[trigger] b[s] as int) < a.len() && a[b[s] as int] == s
}

/// `out` is `src` rearranged by `a`: destination pixel `d` holds every
/// channel of source pixel `a[d]`.
pub open spec fn is_applied(src: Seq<u8>, a: Seq<usize>, out: Seq<u8>) -> bool {
    &&& src.len() == 3 * a.len()
    &&& out.len() == src.len()
    &&& forall|d: int, c: int|
        0 <= d < a.len() && 0 <= c < 3 ==> #[trigger] out[3 * d + c] == src[3 * a[d] + c]
}

/// `x` is an entry of `a`.
pub open spec fn occurs(a: Seq<usize>, x: int) -> bool {
    exists|j: int| 0 <= j < a.len() && a[j] as int == x
}

/// Every value in `[0, n)` occurs in a permutation of `[0, n)`.
pub proof fn lemma_permutation_covers(a: Seq<usize>, n: nat)
    requires
        is_permutation(a, n),
    ensures
        forall|x: int| 0 <= x < n ==> #[trigger] occurs(a, x),
{
    let t = a.map_values(|v: usize| v as int);
    assert(t.no_duplicates()) by {
        assert forall|j: int, l: int| 0 <= j < t.len() && 0 <= l < t.len() && j != l implies t[j]
            != t[l] by {
            assert(a[j] != a[l]);
        }
    }
    t.unique_seq_to_set();
    lemma_int_range(0, n as int);
    let r = set_int_range(0, n as int);
    assert(t.to_set().subset_of(r)) by {
        assert forall|x: int| t.to_set().contains(x) implies r.contains(x) by {
            let j = choose|j: int| 0 <= j < t.len() && t[j] == x;
            assert(a[j] as int == x);
        }
    }
    t.lemma_cardinality_of_set();
    vstd::seq_lib::seq_to_set_is_finite(t);
    lemma_subset_equality(t.to_set(), r);
    assert forall|x: int| 0 <= x < n implies #[trigger] occurs(a, x) by {
        assert(r.contains(x));
        assert(t.to_set().contains(x));
        let j = choose|j: int| 0 <= j < t.len() && t[j] == x;
        assert(a[j] as int == x);
    }
}

/// Swapping two entries of a permutation gives a permutation.
pub proof fn lemma_swap_keeps_permutation(a: Seq<usize>, n: nat, i: int, j: int)
    requires
        is_permutation(a, n),
        0 <= i < n,
        0 <= j < n,
    ensures
        is_permutation(a.update(i, a[j]).update(j, a[i]), n),
{
    let b = a.update(i, a[j]).update(j, a[i]);
    assert forall|p: int, q: int| 0 <= p < n && 0 <= q < n && p != q implies b[p] != b[q] by {
        let sp = if p == j { i } else if p == i { j } else { p };
        let sq = if q == j { i } else if q == i { j } else { q };
        assert(b[p] == a[sp]);
        assert(b[q] == a[sq]);
    }
}

/// Decides whether `a` is a permutation of `[0, n)`.
pub fn check_permutation(a: &Vec<usize>, n: usize) -> (r: bool)
    ensures
        r == is_permutation(a@, n as nat),
{
    if a.len() != n {
        return false;
    }
    let mut seen: Vec<bool> = Vec::new();
    let mut k: usize = 0;
    while k < n
        invariant
            k <= n,
            seen@.len() == k,
            forall|x: int| 0 <= x < k ==> !#[trigger] seen@[x],
        decreases n - k,
    {
        seen.push(false);
        k = k + 1;
    }
    let mut d: usize = 0;
    while d < n
        invariant
            a@.len() == n,
            d <= n,
            seen@.len() == n,
            forall|j: int| 0 <= j < d ==> (#[trigger] a@[j] as int) < n,
            forall|j: int, l: int| 0 <= j < d && 0 <= l < d && j != l ==> a@[j] != a@[l],
            forall|x: int|
                0 <= x < n ==> (#[trigger] seen@[x] <==> exists|j: int|
                    0 <= j < d && a@[j] as int == x),
        decreases n - d,
    {
        let v = a[d];
        if v >= n {
            return false;
        }
        if seen[v] {
            proof {
                let j = choose|j: int| 0 <= j < d && a@[j] as int == v as int;
                assert(a@[j] == a@[d as int]);
            }
            return false;
        }
        let ghost old_seen = seen@;
        seen.set(v, true);
        proof {
            assert forall|x: int| 0 <= x < n implies (#[trigger] seen@[x] <==> exists|j: int|
                0 <= j < d + 1 && a@[j] as int == x) by {
                if x == v as int {
                    assert(a@[d as int] as int == x);
                } else if seen@[x] {
                    assert(old_seen[x]);
                    let j = choose|j: int| 0 <= j < d && a@[j] as int == x;
                    assert(0 <= j < d + 1 && a@[j] as int == x);
                } else {
                    assert(!old_seen[x]);
                }
            }
            assert forall|j: int, l: int|
                0 <= j < d + 1 && 0 <= l < d + 1 && j != l implies a@[j] != a@[l] by {
                if j == d as int && l < d {
                    assert(old_seen[a@[l] as int]);
                } else if l == d as int && j < d {
                    assert(old_seen[a@[j] as int]);
                }
            }
        }
        d = d + 1;
    }
    true
}

/// Rearranges an RGB buffer by an assignment: destination pixel `d` receives
/// source pixel `assignment[d]`. An assignment that is not a permutation of
/// the buffer's pixels is rejected and no output is produced.
pub fn apply(source: &Vec<u8>, assignment: &Vec<usize>) -> (r: Result<Vec<u8>, EngineError>)
    ensures
        r is Err <==> !(source@.len() == 3 * assignment@.len() && is_permutation(
            assignment@,
            assignment@.len(),
        )),
        r is Err ==> r == Err::<Vec<u8>, EngineError>(EngineError::MalformedAssignment),
        r matches Ok(out) ==> is_applied(source@, assignment@, out@),
{
    let n = assignment.len();
    let len = source.len();
    if n > usize::MAX / CHANNELS {
        assert(3 * n > usize::MAX) by (nonlinear_arith)
            requires
                n > usize::MAX / 3,
        ;
        return Err(EngineError::MalformedAssignment);
    }
    if len != CHANNELS * n {
        return Err(EngineError::MalformedAssignment);
    }
    if !check_permutation(assignment, n) {
        return Err(EngineError::MalformedAssignment);
    }
    let mut out: Vec<u8> = Vec::new();
    let mut d: usize = 0;
    while d < n
        invariant
            n == assignment@.len(),
            n <= usize::MAX / 3,
            source@.len() == 3 * n,
            is_permutation(assignment@, n as nat),
            d <= n,
            out@.len() == 3 * d,
            forall|e: int, c: int|
                0 <= e < d && 0 <= c < 3 ==> #[trigger] out@[3 * e + c] == source@[3
                    * assignment@[e] + c],
        decreases n - d,
    {
        let s = assignment[d];
        assert((s as int) < n);
        let base = CHANNELS * s;
        out.push(source[base]);
        out.push(source[base + 1]);
        out.push(source[base + 2]);
        proof {
            assert forall|e: int, c: int| 0 <= e < d + 1 && 0 <= c < 3 implies #[trigger] out@[3
                * e + c] == source@[3 * assignment@[e] + c] by {
                if e < d {
                    assert(3 * e + c < 3 * d);
                }
            }
        }
        d = d + 1;
    }
    Ok(out)
}

/// The inverse of a permutation: `r[assignment[d]] == d`.
pub fn invert(assignment: &Vec<usize>) -> (r: Vec<usize>)
    requires
        is_permutation(assignment@, assignment@.len()),
    ensures
        is_permutation(r@, assignment@.len()),
        is_inverse(assignment@, r@),
{
    let n = assignment.len();
    let mut r: Vec<usize> = Vec::new();
    let mut k: usize = 0;
    while k < n
        invariant
            k <= n,
            r@.len() == k,
            forall|x: int| 0 <= x < k ==> #[trigger] r@[x] == 0,
        decreases n - k,
    {
        r.push(0);
        k = k + 1;
    }
    let mut d: usize = 0;
    while d < n
        invariant
            n == assignment@.len(),
            is_permutation(assignment@, n as nat),
            d <= n,
            r@.len() == n,
            forall|e: int| 0 <= e < d ==> #[trigger] r@[assignment@[e] as int] == e,
        decreases n - d,
    {
        let ghost before = r@;
        r.set(assignment[d], d);
        proof {
            assert forall|e: int| 0 <= e < d + 1 implies #[trigger] r@[assignment@[e] as int]
                == e by {
                if e < d {
                    assert(assignment@[e] != assignment@[d as int]);
                    assert(before[assignment@[e] as int] == e);
                }
            }
        }
        d = d + 1;
    }
    proof {
        lemma_permutation_covers(assignment@, n as nat);
        assert forall|s: int| 0 <= s < n implies (#[trigger] r@[s] as int) < n
            && assignment@[r@[s] as int] == s by {
            assert(occurs(assignment@, s));
            let d = choose|d: int| 0 <= d < n && assignment@[d] as int == s;
            assert(r@[assignment@[d] as int] == d);
        }
        assert forall|j: int, l: int| 0 <= j < n && 0 <= l < n && j != l implies r@[j]
            != r@[l] by {
            assert(assignment@[r@[j] as int] == j);
            assert(assignment@[r@[l] as int] == l);
        }
    }
    r
}

/// Applying an assignment and then its inverse gives back the original
/// buffer exactly.
pub proof fn lemma_apply_inverse_round_trip(
    src: Seq<u8>,
    a: Seq<usize>,
    inv: Seq<usize>,
    mid: Seq<u8>,
    out: Seq<u8>,
)
    requires
        is_permutation(a, a.len()),
        is_inverse(a, inv),
        is_applied(src, a, mid),
        is_applied(mid, inv, out),
    ensures
        out == src,
{
    assert forall|k: int| 0 <= k < src.len() implies out[k] == src[k] by {
        let e = k / 3;
        let c = k % 3;
        assert(k == 3 * e + c);
        assert(out[3 * e + c] == mid[3 * inv[e] + c]);
        assert(mid[3 * inv[e] + c] == src[3 * a[inv[e] as int] + c]);
    }
    assert(out =~= src);
}

} // verus!
