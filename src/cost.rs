//! The cost model: one scalar weight per source pixel and per destination
//! slot, and the squared difference between them as the pairing cost.
use vstd::prelude::*;

verus! {

/// Luminance of an sRGB pixel with the Rec. 709 coefficients, in integer
/// arithmetic, rounded down.
pub open spec fn luma(r: u8, g: u8, b: u8) -> int {
    (2126 * r + 7152 * g + 722 * b) / 10000
}

/// Relies on `image::Pixel::to_luma` for `Rgb<u8>`: it computes
/// `(2126 r + 7152 g + 722 b) / 10000` in `u32` and clamps to `u8`.
#[verifier::external_body]
fn pixel_luma(r: u8, g: u8, b: u8) -> (l: u8)
    ensures
        l as int == luma(r, g, b),
{
    image::Pixel::to_luma(&image::Rgb([r, g, b])).0[0]
}

/// Cost of putting a pixel of weight `s` on a slot of weight `t`.
pub open spec fn pair_cost(s: u8, t: u8) -> int {
    (s - t) * (s - t)
}

/// Total cost of the first `k` slots of assignment `a`.
pub open spec fn prefix_cost(source_weight: Seq<u8>, target_weight: Seq<u8>, a: Seq<usize>, k: int) -> int
    decreases k,
{
    if k <= 0 {
        0
    } else {
        prefix_cost(source_weight, target_weight, a, k - 1) + pair_cost(
            source_weight[a[k - 1] as int],
            target_weight[k - 1],
        )
    }
}

/// Total cost of an assignment: the sum of the pairing costs over all slots.
pub open spec fn total_cost(source_weight: Seq<u8>, target_weight: Seq<u8>, a: Seq<usize>) -> int {
    prefix_cost(source_weight, target_weight, a, a.len() as int)
}

/// Every pairing cost is at most `255 * 255`.
pub proof fn lemma_pair_cost_bounds(s: u8, t: u8)
    ensures
        0 <= pair_cost(s, t) <= 65025,
{
    assert(0 <= (s - t) * (s - t) <= 65025) by (nonlinear_arith)
        requires
            0 <= s <= 255,
            0 <= t <= 255,
    ;
}

/// A prefix of `k` slots costs at most `65025 * k`.
pub proof fn lemma_prefix_cost_bounds(source_weight: Seq<u8>, target_weight: Seq<u8>, a: Seq<usize>, k: int)
    requires
        0 <= k,
    ensures
        0 <= prefix_cost(source_weight, target_weight, a, k) <= 65025 * k,
    decreases k,
{
    if k > 0 {
        lemma_prefix_cost_bounds(source_weight, target_weight, a, k - 1);
        lemma_pair_cost_bounds(source_weight[a[k - 1] as int], target_weight[k - 1]);
    }
}

/// Per-pixel luminance of a row-major RGB buffer.
pub fn luminance_weights(rgb: &Vec<u8>) -> (w: Vec<u8>)
    requires
        rgb@.len() % 3 == 0,
    ensures
        w@.len() * 3 == rgb@.len(),
        forall|i: int|
            0 <= i < w@.len() ==> #[trigger] w@[i] as int == luma(
                rgb@[3 * i],
                rgb@[3 * i + 1],
                rgb@[3 * i + 2],
            ),
{
    let len = rgb.len();
    let n = len / 3;
    let mut w: Vec<u8> = Vec::new();
    let mut i: usize = 0;
    while i < n
        invariant
            n * 3 == rgb@.len(),
            n * 3 == len,
            i <= n,
            w@.len() == i,
            forall|j: int|
                0 <= j < i ==> #[trigger] w@[j] as int == luma(
                    rgb@[3 * j],
                    rgb@[3 * j + 1],
                    rgb@[3 * j + 2],
                ),
        decreases n - i,
    {
        let base = 3 * i;
        let l = pixel_luma(rgb[base], rgb[base + 1], rgb[base + 2]);
        w.push(l);
        i = i + 1;
    }
    w
}

/// Cost of putting a pixel of weight `s` on a slot of weight `t`.
pub fn slot_cost(s: u8, t: u8) -> (c: u32)
    ensures
        c as int == pair_cost(s, t),
{
    let d: u32 = if s >= t { (s - t) as u32 } else { (t - s) as u32 };
    assert(d * d == (s - t) * (s - t)) by (nonlinear_arith)
        requires
            d == s - t || d == t - s,
    ;
    assert(d * d <= 65025) by (nonlinear_arith)
        requires
            d <= 255,
    ;
    d * d
}

/// Total cost of an assignment over the two weight arrays.
pub fn assignment_cost(source_weight: &Vec<u8>, target_weight: &Vec<u8>, a: &Vec<usize>) -> (c: u128)
    requires
        a@.len() == target_weight@.len(),
        forall|d: int| 0 <= d < a@.len() ==> (#[trigger] a@[d] as int) < source_weight@.len(),
    ensures
        c as int == total_cost(source_weight@, target_weight@, a@),
{
    let n = a.len();
    let mut acc: u128 = 0;
    let mut d: usize = 0;
    while d < n
        invariant
            n == a@.len(),
            n == target_weight@.len(),
            forall|e: int| 0 <= e < a@.len() ==> (#[trigger] a@[e] as int) < source_weight@.len(),
            d <= n,
            acc as int == prefix_cost(source_weight@, target_weight@, a@, d as int),
        decreases n - d,
    {
        proof {
            lemma_prefix_cost_bounds(source_weight@, target_weight@, a@, d as int);
            assert(65025 * (d as int) < 65025 * 0x1_0000_0000_0000_0000) by (nonlinear_arith)
                requires
                    d < 0x1_0000_0000_0000_0000,
            ;
        }
        let c = slot_cost(source_weight[a[d]], target_weight[d]);
        acc = acc + c as u128;
        d = d + 1;
    }
    acc
}

} // verus!
