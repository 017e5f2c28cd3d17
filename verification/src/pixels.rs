//! Choosing pixels of a depth map.
//!
//! Pixels are numbered row by row: pixel `(u, v)` of an image of width `w` has
//! the index `v * w + u`.
use crate::ieee::{at_most32, le32, less32, lt32, DEPTH_EPSILON, MIN_DENSIFY_DEPTH};
use vstd::prelude::*;

verus! {

/// The indices below `n` that satisfy `pred`, in increasing order.
pub open spec fn picked(n: nat, pred: spec_fn(usize) -> bool) -> Seq<usize>
    decreases n,
{
    if n == 0 {
        Seq::empty()
    } else {
        let before = picked((n - 1) as nat, pred);
        if pred((n - 1) as usize) {
            before.push((n - 1) as usize)
        } else {
            before
        }
    }
}

/// `picked` holds exactly the indices that satisfy the predicate, each once
/// and in increasing order.
pub proof fn lemma_picked(n: nat, pred: spec_fn(usize) -> bool)
    requires
        n <= usize::MAX,
    ensures
        picked(n, pred).len() <= n,
        forall|i: usize| #[trigger] picked(n, pred).contains(i) <==> i < n && pred(i),
        forall|a: int, b: int|
            0 <= a < b < picked(n, pred).len() ==> picked(n, pred)[a] < picked(n, pred)[b],
        picked(n, pred).no_duplicates(),
    decreases n,
{
    if n > 0 {
        let m = (n - 1) as nat;
        lemma_picked(m, pred);
        let before = picked(m, pred);
        let all = picked(n, pred);
        assert forall|i: usize| #[trigger] all.contains(i) <==> i < n && pred(i) by {
            if all.contains(i) {
                let k = all.index_of(i);
                if k < before.len() {
                    assert(before[k] == i);
                    assert(before.contains(i));
                }
            }
            if i < n && pred(i) {
                if i < m {
                    assert(before.contains(i));
                    let k = before.index_of(i);
                    assert(all[k] == i);
                } else {
                    assert(all[all.len() - 1] == i);
                }
            }
        }
        assert forall|a: int, b: int| 0 <= a < b < all.len() implies all[a] < all[b] by {
            if b == before.len() {
                assert(before.contains(before[a]));
            }
        }
    }
}

/// Indices that do not satisfy the predicate can be passed over.
proof fn lemma_picked_skip(a: nat, b: nat, pred: spec_fn(usize) -> bool)
    requires
        a <= b <= usize::MAX,
        forall|i: usize| a <= i < b ==> !#[trigger] pred(i),
    ensures
        picked(a, pred) == picked(b, pred),
    decreases b - a,
{
    if a < b {
        lemma_picked_skip(a, (b - 1) as nat, pred);
        assert(!pred((b - 1) as usize));
    }
}

/// Predicates that agree below `n` pick the same indices.
pub proof fn lemma_picked_agree(n: nat, p: spec_fn(usize) -> bool, q: spec_fn(usize) -> bool)
    requires
        n <= usize::MAX,
        forall|i: usize| i < n ==> #[trigger] p(i) == q(i),
    ensures
        picked(n, p) == picked(n, q),
    decreases n,
{
    if n > 0 {
        lemma_picked_agree((n - 1) as nat, p, q);
        assert(p((n - 1) as usize) == q((n - 1) as usize));
    }
}

/// Whether a depth value is a measurement rather than a hole.
pub open spec fn has_depth(depth: u32) -> bool {
    !at_most32(depth, DEPTH_EPSILON)
}

/// Whether a depth value is large enough for densification.
pub open spec fn deep_enough(depth: u32) -> bool {
    !less32(depth, MIN_DENSIFY_DEPTH)
}

/// Whether `n` is a multiple of `k`. Zero is the only multiple of zero.
pub open spec fn multiple(n: int, k: int) -> bool {
    if k == 0 {
        n == 0
    } else {
        n % k == 0
    }
}

/// Pixels with depth in every `stride`-th column of every `stride`-th row.
pub open spec fn on_strided_grid(depth: Seq<u32>, w: int, stride: int) -> spec_fn(usize) -> bool {
    |i: usize|
        has_depth(depth[i as int]) && multiple(i as int % w, stride) && multiple(
            i as int / w,
            stride,
        )
}

/// Row and column of a pixel.
pub fn pixel_coords(idx: usize, w: usize) -> (uv: (usize, usize))
    requires
        w > 0,
    ensures
        uv.0 == idx as int % w as int,
        uv.1 == idx as int / w as int,
        uv.0 < w,
        uv.1 * w + uv.0 == idx,
{
    proof {
        vstd::arithmetic::div_mod::lemma_fundamental_div_mod(idx as int, w as int);
        vstd::arithmetic::mul::lemma_mul_is_commutative(w as int, idx as int / w as int);
    }
    (idx % w, idx / w)
}

/// Index of a pixel.
pub fn pixel_index(u: usize, v: usize, w: usize) -> (idx: usize)
    requires
        v * w + u <= usize::MAX,
    ensures
        idx == v * w + u,
{
    proof {
        assert(v * w <= usize::MAX) by {
            vstd::arithmetic::mul::lemma_mul_nonnegative(v as int, w as int);
        }
    }
    v * w + u
}

/// Row and column of the index of a pixel are the ones it was made from, and
/// the index of the row and column of a pixel is the pixel again.
pub proof fn lemma_pixel_roundtrip(u: int, v: int, w: int)
    requires
        0 <= u < w,
        0 <= v,
    ensures
        (v * w + u) % w == u,
        (v * w + u) / w == v,
{
    vstd::arithmetic::div_mod::lemma_fundamental_div_mod_converse(v * w + u, w, v, u);
}

/// All pixels with depth.
pub fn pixels_with_depth(depth: &Vec<u32>, n: usize) -> (out: Vec<usize>)
    requires
        n <= depth@.len(),
    ensures
        out@ == picked(n as nat, |i: usize| has_depth(depth@[i as int])),
{
    let mut out: Vec<usize> = Vec::new();
    let ghost pred = |i: usize| has_depth(depth@[i as int]);
    for idx in 0..n
        invariant
            n <= depth@.len(),
            pred == (|i: usize| has_depth(depth@[i as int])),
            out@ == picked(idx as nat, pred),
    {
        if !le32(depth[idx], DEPTH_EPSILON) {
            out.push(idx);
        }
    }
    out
}

/// Pixels with depth on the strided grid, found by testing every pixel.
pub fn strided_depth_points(depth: &Vec<u32>, w: usize, h: usize, stride: usize) -> (out: Vec<usize>)
    requires
        w * h <= usize::MAX,
        w * h <= depth@.len(),
    ensures
        out@ == picked((w * h) as nat, on_strided_grid(depth@, w as int, stride as int)),
{
    let n: usize = w * h;
    let mut out: Vec<usize> = Vec::new();
    let ghost pred = on_strided_grid(depth@, w as int, stride as int);
    for idx in 0..n
        invariant
            n == w * h,
            n <= depth@.len(),
            pred == on_strided_grid(depth@, w as int, stride as int),
            out@ == picked(idx as nat, pred),
    {
        proof {
            assert(w > 0) by {
                if w == 0 {
                    vstd::arithmetic::mul::lemma_mul_basics(h as int);
                }
            }
        }
        let (u, v) = pixel_coords(idx, w);
        if !le32(depth[idx], DEPTH_EPSILON) && u.is_multiple_of(stride) && v.is_multiple_of(stride) {
            out.push(idx);
        }
    }
    out
}

proof fn lemma_between_multiples(m: int, k: int, x: int)
    requires
        k > 0,
        m % k == 0,
        m < x < m + k,
    ensures
        x % k != 0,
{
    vstd::arithmetic::div_mod::lemma_fundamental_div_mod(m, k);
    vstd::arithmetic::mul::lemma_mul_is_commutative(k, m / k);
    vstd::arithmetic::div_mod::lemma_fundamental_div_mod_converse(x, k, m / k, x - m);
}

proof fn lemma_next_multiple(m: int, k: int)
    requires
        k > 0,
        m % k == 0,
    ensures
        (m + k) % k == 0,
{
    vstd::arithmetic::div_mod::lemma_mod_add_multiples_vanish(m, k);
}

/// Pixels with depth on the strided grid, found by stepping over rows and
/// columns.
pub fn step_strided_grid(depth: &Vec<u32>, w: usize, h: usize, stride: usize) -> (out: Vec<usize>)
    requires
        stride > 0,
        w * h <= usize::MAX,
        w * h <= depth@.len(),
    ensures
        out@ == picked((w * h) as nat, on_strided_grid(depth@, w as int, stride as int)),
{
    let mut out: Vec<usize> = Vec::new();
    let ghost pred = on_strided_grid(depth@, w as int, stride as int);
    let mut v: usize = 0;
    let mut more_rows: bool = h > 0;
    proof {
        vstd::arithmetic::mul::lemma_mul_basics(w as int);
        vstd::arithmetic::mul::lemma_mul_is_commutative(w as int, h as int);
        assert(0int % stride as int == 0) by {
            vstd::arithmetic::div_mod::lemma_small_mod(0, stride as nat);
        }
    }
    while more_rows
        invariant
            stride > 0,
            w * h == h * w,
            w * h <= usize::MAX,
            w * h <= depth@.len(),
            pred == on_strided_grid(depth@, w as int, stride as int),
            v as int % stride as int == 0,
            0int % stride as int == 0,
            v <= h,
            more_rows ==> v < h,
            more_rows ==> out@ == picked((v * w) as nat, pred),
            !more_rows ==> out@ == picked((w * h) as nat, pred),
        decreases (h - v) + (if more_rows { 1int } else { 0int }),
    {
        proof {
            assert((v + 1) * w <= h * w && v * w + w == (v + 1) * w && v * w >= 0) by (nonlinear_arith)
                requires
                    v < h,
            ;
        }
        let row: usize = v * w;
        let mut u: usize = 0;
        let mut more_columns: bool = w > 0;
        while more_columns
            invariant
                stride > 0,
                v < h,
                row == v * w,
                row + w == (v + 1) * w,
                (v + 1) * w <= h * w,
                h * w <= usize::MAX,
                h * w <= depth@.len(),
                pred == on_strided_grid(depth@, w as int, stride as int),
                v as int % stride as int == 0,
                u as int % stride as int == 0,
                u <= w,
                more_columns ==> u < w,
                more_columns ==> out@ == picked((row + u) as nat, pred),
                !more_columns ==> out@ == picked((row + w) as nat, pred),
            decreases (w - u) + (if more_columns { 1int } else { 0int }),
        {
            let idx: usize = row + u;
            proof {
                lemma_pixel_roundtrip(u as int, v as int, w as int);
            }
            if !le32(depth[idx], DEPTH_EPSILON) {
                out.push(idx);
            }
            proof {
                let end: int = if stride < w - u { row + u + stride } else { row + w };
                assert(out@ == picked((row + u + 1) as nat, pred));
                assert forall|i: usize| row + u + 1 <= i < end implies !#[trigger] pred(i) by {
                    lemma_pixel_roundtrip(i - row, v as int, w as int);
                    lemma_between_multiples(u as int, stride as int, i - row);
                }
                lemma_picked_skip((row + u + 1) as nat, end as nat, pred);
                lemma_next_multiple(u as int, stride as int);
            }
            if stride < w - u {
                u = u + stride;
            } else {
                more_columns = false;
            }
        }
        proof {
            let end: int = if stride < h - v { v + stride } else { h as int };
            assert((v + 1) * w <= end * w <= h * w) by (nonlinear_arith)
                requires
                    v + 1 <= end <= h,
            ;
            assert forall|i: usize| (v + 1) * w <= i < end * w implies !#[trigger] pred(i) by {
                lemma_row_of(i as int, v + 1, end, w as int);
                lemma_between_multiples(v as int, stride as int, i as int / w as int);
            }
            lemma_picked_skip(((v + 1) * w) as nat, (end * w) as nat, pred);
            lemma_next_multiple(v as int, stride as int);
        }
        if stride < h - v {
            v = v + stride;
        } else {
            more_rows = false;
        }
    }
    out
}

proof fn lemma_row_of(i: int, a: int, b: int, w: int)
    requires
        0 <= a,
        a * w <= i < b * w,
        w >= 0,
    ensures
        w > 0,
        a <= i / w < b,
{
    assert(w > 0) by (nonlinear_arith)
        requires
            a * w <= i < b * w,
            w >= 0,
    ;
    vstd::arithmetic::div_mod::lemma_fundamental_div_mod(i, w);
    let q = i / w;
    assert(a <= q) by (nonlinear_arith)
        requires
            a * w <= i,
            i == w * q + i % w,
            0 <= i % w < w,
            w > 0,
    ;
    assert(q < b) by (nonlinear_arith)
        requires
            i < b * w,
            i == w * q + i % w,
            0 <= i % w < w,
            w > 0,
    ;
}

/// Pixels that densification may sample: without a Gaussian yet, deep enough,
/// and reconstructed worse than the similarity threshold.
pub open spec fn densifiable(
    added: Seq<bool>,
    depth: Seq<u32>,
    ssim: Seq<u32>,
    threshold: u32,
) -> spec_fn(usize) -> bool {
    |i: usize|
        !added[i as int] && deep_enough(depth[i as int]) && !at_most32(threshold, ssim[i as int])
}

/// Pixels that densification may sample, in increasing order.
pub fn densify_candidates(
    added: &Vec<bool>,
    depth: &Vec<u32>,
    ssim: &Vec<u32>,
    threshold: u32,
    n: usize,
) -> (out: Vec<usize>)
    requires
        n <= added@.len(),
        n <= depth@.len(),
        n <= ssim@.len(),
    ensures
        out@ == picked(n as nat, densifiable(added@, depth@, ssim@, threshold)),
{
    let mut out: Vec<usize> = Vec::new();
    let ghost pred = densifiable(added@, depth@, ssim@, threshold);
    for idx in 0..n
        invariant
            n <= added@.len(),
            n <= depth@.len(),
            n <= ssim@.len(),
            pred == densifiable(added@, depth@, ssim@, threshold),
            out@ == picked(idx as nat, pred),
    {
        if !(added[idx] || lt32(depth[idx], MIN_DENSIFY_DEPTH) || le32(threshold, ssim[idx])) {
            out.push(idx);
        }
    }
    out
}

/// Pixels without a Gaussian that are deep enough.
pub open spec fn injectable(added: Seq<bool>, depth: Seq<u32>) -> spec_fn(usize) -> bool {
    |i: usize| !added[i as int] && deep_enough(depth[i as int])
}

/// Pixels into which an error-weighted sampler may inject Gaussians.
pub fn injection_pixels(added: &Vec<bool>, depth: &Vec<u32>, n: usize) -> (out: Vec<usize>)
    requires
        n <= added@.len(),
        n <= depth@.len(),
    ensures
        out@ == picked(n as nat, injectable(added@, depth@)),
{
    let mut out: Vec<usize> = Vec::new();
    let ghost pred = injectable(added@, depth@);
    for idx in 0..n
        invariant
            n <= added@.len(),
            n <= depth@.len(),
            pred == injectable(added@, depth@),
            out@ == picked(idx as nat, pred),
    {
        if !(added[idx] || lt32(depth[idx], MIN_DENSIFY_DEPTH)) {
            out.push(idx);
        }
    }
    out
}

/// Pixels without a Gaussian that have depth.
pub open spec fn textured(added: Seq<bool>, depth: Seq<u32>) -> spec_fn(usize) -> bool {
    |i: usize| has_depth(depth[i as int]) && !added[i as int]
}

/// Pixels into which a texture-weighted sampler may place Gaussians.
pub fn texture_pixels(added: &Vec<bool>, depth: &Vec<u32>, n: usize) -> (out: Vec<usize>)
    requires
        n <= added@.len(),
        n <= depth@.len(),
    ensures
        out@ == picked(n as nat, textured(added@, depth@)),
{
    let mut out: Vec<usize> = Vec::new();
    let ghost pred = textured(added@, depth@);
    for idx in 0..n
        invariant
            n <= added@.len(),
            n <= depth@.len(),
            pred == textured(added@, depth@),
            out@ == picked(idx as nat, pred),
    {
        if !(le32(depth[idx], DEPTH_EPSILON) || added[idx]) {
            out.push(idx);
        }
    }
    out
}

/// The indices of a weight list whose weight is above zero.
pub open spec fn weighted(weights: Seq<u32>) -> spec_fn(usize) -> bool {
    |i: usize| less32(0, weights[i as int])
}

/// How many of the wanted samples can be drawn: no more than there are
/// positive weights.
pub fn sample_count(weights: &Vec<u32>, num_samples: usize) -> (n: usize)
    ensures
        n == vstd::math::min(
            num_samples as int,
            picked(weights@.len(), weighted(weights@)).len() as int,
        ),
{
    let mut valid: usize = 0;
    let ghost pred = weighted(weights@);
    let total: usize = weights.len();
    for idx in 0..total
        invariant
            total == weights@.len(),
            pred == weighted(weights@),
            valid == picked(idx as nat, pred).len(),
            valid <= idx,
    {
        if lt32(0, weights[idx]) {
            valid = valid + 1;
        }
    }
    if num_samples < valid {
        num_samples
    } else {
        valid
    }
}

/// The weight of each pixel: zero but for the listed pixels.
pub open spec fn weights_at(pixels: Seq<usize>, n: nat, weight: spec_fn(usize) -> u32) -> Seq<u32> {
    Seq::new(
        n,
        |i: int|
            if pixels.contains(i as usize) {
                weight(i as usize)
            } else {
                0
            },
    )
}

/// Whether the function always gives what `weight` says.
pub open spec fn computes_pixel_weight<F: Fn(usize) -> u32>(f: F, weight: spec_fn(usize) -> u32) -> bool {
    forall|idx: usize, out: u32| call_ensures(f, (idx,), out) ==> out == weight(idx)
}

/// Weighs the listed pixels. All others weigh nothing.
pub fn pixel_weights<F: Fn(usize) -> u32>(pixels: &Vec<usize>, n: usize, f: &F) -> (weights: Vec<u32>)
    requires
        pixels@.no_duplicates(),
        forall|k: int| 0 <= k < pixels@.len() ==> (#[trigger] pixels@[k]) < n,
        forall|idx: usize| #[trigger] call_requires(f, (idx,)),
    ensures
        weights@.len() == n,
        forall|weight: spec_fn(usize) -> u32| #[trigger]
            computes_pixel_weight(*f, weight) ==> weights@ == weights_at(pixels@, n as nat, weight),
{
    let mut weights: Vec<u32> = Vec::new();
    for i in 0..n
        invariant
            weights@ == Seq::new(i as nat, |k: int| 0u32),
    {
        weights.push(0);
        assert(weights@ =~= Seq::new((i + 1) as nat, |k: int| 0u32));
    }
    let count: usize = pixels.len();
    proof {
        assert forall|weight: spec_fn(usize) -> u32| #[trigger] computes_pixel_weight(*f, weight) implies weights@
            == weights_at(pixels@.take(0), n as nat, weight) by {
            assert(weights@ =~= weights_at(pixels@.take(0), n as nat, weight));
        }
    }
    for k in 0..count
        invariant
            count == pixels@.len(),
            weights@.len() == n,
            forall|k: int| 0 <= k < pixels@.len() ==> (#[trigger] pixels@[k]) < n,
            forall|idx: usize| #[trigger] call_requires(f, (idx,)),
            forall|weight: spec_fn(usize) -> u32| #[trigger]
                computes_pixel_weight(*f, weight) ==> weights@ == weights_at(pixels@.take(k as int), n as nat, weight),
    {
        let idx: usize = pixels[k];
        let w: u32 = f(idx);
        let ghost before = weights@;
        weights.set(idx, w);
        proof {
            let seen = pixels@.take(k as int);
            let now = pixels@.take(k + 1);
            assert(now =~= seen.push(idx));
            assert(now[k as int] == idx);
            assert forall|weight: spec_fn(usize) -> u32| #[trigger] computes_pixel_weight(*f, weight) implies weights@
                == weights_at(now, n as nat, weight) by {
                assert(w == weight(idx));
                assert(before == weights_at(seen, n as nat, weight));
                assert forall|i: int| 0 <= i < n implies #[trigger] weights@[i] == weights_at(now, n as nat, weight)[i] by {
                    if seen.contains(i as usize) {
                        let j = seen.index_of(i as usize);
                        assert(now[j] == i as usize);
                    }
                    if now.contains(i as usize) && i != idx {
                        let j = now.index_of(i as usize);
                        assert(seen[j] == i as usize);
                    }
                }
                assert(weights@ =~= weights_at(now, n as nat, weight));
            }
        }
    }
    assert(pixels@.take(count as int) =~= pixels@);
    weights
}

/// Weights of pixels, and how many pixels are to be drawn from them.
pub struct DrawPlan {
    pub weights: Vec<u32>,
    pub n: usize,
}

/// How many pixels of positive weight can be drawn.
pub open spec fn drawable(weights: Seq<u32>, num_samples: nat) -> nat {
    vstd::math::min(num_samples as int, picked(weights.len(), weighted(weights)).len() as int) as nat
}

/// A pixel is on the grid exactly if it has depth and both its column and its
/// row are multiples of the stride; a stride of zero leaves the first pixel.
pub proof fn lemma_grid_is_regular(depth: Seq<u32>, w: int, h: int, stride: int, u: int, v: int)
    requires
        0 <= u < w,
        0 <= v < h,
        0 <= stride,
        w * h <= usize::MAX,
        w * h <= depth.len(),
    ensures
        0 <= v * w + u < w * h,
        picked((w * h) as nat, on_strided_grid(depth, w, stride)).contains((v * w + u) as usize) <==> {
            &&& !at_most32(depth[v * w + u], 0x3C23_D70A)
            &&& if stride == 0 {
                u == 0 && v == 0
            } else {
                u % stride == 0 && v % stride == 0
            }
        },
{
    assert(0 <= v * w + u < w * h) by (nonlinear_arith)
        requires
            0 <= u < w,
            0 <= v < h,
    ;
    lemma_pixel_roundtrip(u, v, w);
    lemma_picked((w * h) as nat, on_strided_grid(depth, w, stride));
    let i = (v * w + u) as usize;
    assert(on_strided_grid(depth, w, stride)(i) == (has_depth(depth[i as int]) && multiple(u, stride) && multiple(
        v,
        stride,
    )));
}

/// Which pixels are taken for what. A pixel has depth if its depth is not at
/// most 0.01. Densification takes pixels without a Gaussian whose depth is not
/// below 0.1 and whose similarity is not at least the threshold; injection takes
/// them whatever their similarity; placing by texture takes pixels with depth
/// and without a Gaussian. What weighs more than nothing can be drawn.
pub proof fn lemma_pixels_qualify(
    added: Seq<bool>,
    depth: Seq<u32>,
    ssim: Seq<u32>,
    threshold: u32,
    weights: Seq<u32>,
    n: nat,
    i: usize,
)
    requires
        n <= usize::MAX,
        i < n,
    ensures
        picked(n, |i: usize| has_depth(depth[i as int])).contains(i) <==> !at_most32(depth[i as int], 0x3C23_D70A),
        picked(n, densifiable(added, depth, ssim, threshold)).contains(i) <==> !added[i as int] && !less32(
            depth[i as int],
            0x3DCC_CCCD,
        ) && !at_most32(threshold, ssim[i as int]),
        picked(n, injectable(added, depth)).contains(i) <==> !added[i as int] && !less32(depth[i as int], 0x3DCC_CCCD),
        picked(n, textured(added, depth)).contains(i) <==> !added[i as int] && !at_most32(
            depth[i as int],
            0x3C23_D70A,
        ),
        picked(n, weighted(weights)).contains(i) <==> less32(0, weights[i as int]),
{
    let with_depth = |i: usize| has_depth(depth[i as int]);
    lemma_picked(n, with_depth);
    lemma_picked(n, densifiable(added, depth, ssim, threshold));
    lemma_picked(n, injectable(added, depth));
    lemma_picked(n, textured(added, depth));
    lemma_picked(n, weighted(weights));
    assert(with_depth(i) == has_depth(depth[i as int]));
}

/// Each listed pixel has its own weight, and every other weighs nothing.
pub proof fn lemma_only_listed_pixels_weigh(pixels: Seq<usize>, n: nat, weight: spec_fn(usize) -> u32, i: usize)
    requires
        i < n,
    ensures
        weights_at(pixels, n, weight).len() == n,
        pixels.contains(i) ==> weights_at(pixels, n, weight)[i as int] == weight(i),
        !pixels.contains(i) ==> weights_at(pixels, n, weight)[i as int] == 0,
{
}

/// No more pixels are drawn than asked for, nor than weigh something; with fewer
/// asked for than weigh something, all that were asked for are.
pub proof fn lemma_drawable(weights: Seq<u32>, num_samples: nat)
    requires
        weights.len() <= usize::MAX,
    ensures
        drawable(weights, num_samples) <= num_samples,
        drawable(weights, num_samples) < num_samples ==> drawable(weights, num_samples) == picked(
            weights.len(),
            |i: usize| less32(0, weights[i as int]),
        ).len(),
        drawable(weights, num_samples) <= picked(weights.len(), |i: usize| less32(0, weights[i as int])).len(),
        drawable(Seq::empty(), num_samples) == 0,
{
    let above = |i: usize| less32(0, weights[i as int]);
    assert forall|i: usize| i < weights.len() implies #[trigger] above(i) == weighted(weights)(i) by {}
    lemma_picked_agree(weights.len(), above, weighted(weights));
}

/// A function that always gives what `weight` says, and no other, is one that
/// computes it.
pub proof fn lemma_computes_pixel_weight<F: Fn(usize) -> u32>(
    f: F,
    weight: spec_fn(usize) -> u32,
)
    ensures
        computes_pixel_weight(f, weight) <==> forall|idx: usize, out: u32| #[trigger]
            call_ensures(f, (idx,), out) ==> out == weight(idx),
{
}

} // verus!
