//! How much texture an image has around each pixel.
//!
//! The arithmetic on grey levels is handed in; this module decides which
//! values it sees. All values are binary32 bit patterns.
use crate::pixels::pixel_coords;
use crate::raster::RasterImage;
use vstd::prelude::*;

verus! {

/// The first index of a window of the given radius.
pub open spec fn low(x: int, radius: int) -> int {
    if x < radius {
        0
    } else {
        x - radius
    }
}

/// The last index of a window of the given radius, within `n`.
pub open spec fn high(x: int, radius: int, n: int) -> int {
    if x + radius < n - 1 {
        x + radius
    } else {
        n - 1
    }
}

/// The values in columns `x0` to `x1` of rows `y0` up to `y1`, row by row.
pub open spec fn block(data: Seq<u32>, w: int, x0: int, x1: int, y0: int, y1: int) -> Seq<u32>
    decreases y1 - y0,
{
    if y1 <= y0 {
        Seq::empty()
    } else {
        block(data, w, x0, x1, y0, y1 - 1) + data.subrange((y1 - 1) * w + x0, (y1 - 1) * w + x1 + 1)
    }
}

/// The values around a pixel, up to `radius` away in each direction.
pub open spec fn window(data: Seq<u32>, w: int, h: int, radius: int, i: int) -> Seq<u32> {
    let x = i % w;
    let y = i / w;
    block(data, w, low(x, radius), high(x, radius, w), low(y, radius), high(y, radius, h) + 1)
}

/// Each value replaced by the mean of the values around it.
pub open spec fn blurred(data: Seq<u32>, w: int, h: int, radius: int, mean: spec_fn(Seq<u32>) -> u32) -> Seq<u32> {
    if radius == 0 {
        data
    } else {
        Seq::new((w * h) as nat, |i: int| mean(window(data, w, h, radius, i)))
    }
}

/// Whether the function always gives what `mean` says.
pub open spec fn computes_mean<F: Fn(Vec<u32>) -> u32>(f: F, mean: spec_fn(Seq<u32>) -> u32) -> bool {
    forall|values: Vec<u32>, out: u32| call_ensures(f, (values,), out) ==> out == mean(values@)
}

proof fn lemma_row_fits(y: int, w: int, h: int)
    by (nonlinear_arith)
    requires
        0 <= y < h,
        0 <= w,
    ensures
        0 <= y * w,
        y * w + w <= w * h,
{
}

proof fn lemma_coords(i: int, w: int, h: int)
    requires
        0 <= i < w * h,
        0 <= w,
        0 <= h,
    ensures
        w > 0,
        0 <= i % w < w,
        0 <= i / w < h,
        i == (i / w) * w + i % w,
{
    assert(w > 0) by (nonlinear_arith)
        requires
            0 <= i < w * h,
            0 <= w,
            0 <= h,
    ;
    vstd::arithmetic::div_mod::lemma_fundamental_div_mod(i, w);
    vstd::arithmetic::mul::lemma_mul_is_commutative(w, i / w);
    assert(i / w < h) by (nonlinear_arith)
        requires
            0 <= i < w * h,
            w > 0,
            i == (i / w) * w + i % w,
            0 <= i % w,
    ;
    vstd::arithmetic::div_mod::lemma_div_pos_is_pos(i, w);
}

fn collect_window(data: &Vec<u32>, w: usize, h: usize, radius: usize, i: usize) -> (values: Vec<u32>)
    requires
        data@.len() == w * h,
        i < w * h,
        w + radius <= usize::MAX,
        h + radius <= usize::MAX,
    ensures
        values@ == window(data@, w as int, h as int, radius as int, i as int),
{
    proof {
        lemma_coords(i as int, w as int, h as int);
    }
    let (x, y): (usize, usize) = pixel_coords(i, w);
    let x0: usize = x.saturating_sub(radius);
    let x1: usize = if x + radius < w - 1 {
        x + radius
    } else {
        w - 1
    };
    let y0: usize = y.saturating_sub(radius);
    let y1: usize = if y + radius < h - 1 {
        y + radius
    } else {
        h - 1
    };
    let total: usize = data.len();
    let mut values: Vec<u32> = Vec::new();
    let mut yy: usize = y0;
    while yy <= y1
        invariant
            data@.len() == w * h,
            total == data@.len(),
            x0 <= x1 < w,
            y0 <= yy <= y1 + 1,
            y1 < h,
            values@ == block(data@, w as int, x0 as int, x1 as int, y0 as int, yy as int),
        decreases y1 + 1 - yy,
    {
        proof {
            lemma_row_fits(yy as int, w as int, h as int);
        }
        let row: usize = yy * w;
        let ghost before = values@;
        let mut xx: usize = x0;
        assert(before + data@.subrange(row + x0, row + x0) =~= before);
        while xx <= x1
            invariant
                total == data@.len(),
                x0 <= xx <= x1 + 1,
                x1 < w,
                row + w <= total,
                values@ == before + data@.subrange(row + x0, row + xx),
            decreases x1 + 1 - xx,
        {
            values.push(data[row + xx]);
            assert(values@ =~= before + data@.subrange(row + x0, row + xx + 1));
            xx = xx + 1;
        }
        yy = yy + 1;
    }
    values
}

/// Smooths an image: each value becomes the mean of the values around it.
pub fn box_blur<F: Fn(Vec<u32>) -> u32>(data: &Vec<u32>, w: usize, h: usize, radius: usize, f: &F) -> (out: Vec<u32>)
    requires
        data@.len() == w * h,
        w + radius <= usize::MAX,
        h + radius <= usize::MAX,
        forall|values: Vec<u32>| #[trigger] call_requires(f, (values,)),
    ensures
        out@.len() == data@.len(),
        forall|mean: spec_fn(Seq<u32>) -> u32| #[trigger]
            computes_mean(*f, mean) ==> out@ == blurred(data@, w as int, h as int, radius as int, mean),
{
    if radius == 0 {
        let same = data.clone();
        assert(same@ =~= data@);
        return same;
    }
    let total: usize = data.len();
    let mut out: Vec<u32> = Vec::new();
    for i in 0..total
        invariant
            total == data@.len(),
            data@.len() == w * h,
            w + radius <= usize::MAX,
            h + radius <= usize::MAX,
            radius > 0,
            out@.len() == i,
            forall|values: Vec<u32>| #[trigger] call_requires(f, (values,)),
            forall|mean: spec_fn(Seq<u32>) -> u32| #[trigger]
                computes_mean(*f, mean) ==> out@ == blurred(data@, w as int, h as int, radius as int, mean).take(
                    i as int,
                ),
    {
        let values = collect_window(data, w, h, radius, i);
        let ghost seen = values@;
        let m: u32 = f(values);
        out.push(m);
        proof {
            assert forall|mean: spec_fn(Seq<u32>) -> u32| #[trigger] computes_mean(*f, mean) implies out@ == blurred(
                data@,
                w as int,
                h as int,
                radius as int,
                mean,
            ).take(i + 1) by {
                let all = blurred(data@, w as int, h as int, radius as int, mean);
                assert(m == mean(seen));
                assert(all.take(i + 1) =~= all.take(i as int).push(all[i as int]));
            }
        }
    }
    proof {
        assert forall|mean: spec_fn(Seq<u32>) -> u32| #[trigger] computes_mean(*f, mean) implies out@ == blurred(
            data@,
            w as int,
            h as int,
            radius as int,
            mean,
        ) by {
            let all = blurred(data@, w as int, h as int, radius as int, mean);
            assert(all.take(total as int) =~= all);
        }
    }
    out
}

/// The values left, right, above and below a pixel. At the border the pixel
/// itself takes the place of what is missing.
pub open spec fn cross(gray: Seq<u32>, w: int, h: int, i: int) -> [u32; 4] {
    let x = i % w;
    let y = i / w;
    [
        gray[y * w + low(x, 1)],
        gray[y * w + high(x, 1, w)],
        gray[low(y, 1) * w + x],
        gray[high(y, 1, h) * w + x],
    ]
}

/// Whether the function always gives what `tensor` says.
pub open spec fn computes_tensor<F: Fn([u32; 4]) -> [u32; 3]>(f: F, tensor: spec_fn([u32; 4]) -> [u32; 3]) -> bool {
    forall|around: [u32; 4], out: [u32; 3]| call_ensures(f, (around,), out) ==> out == tensor(around)
}

/// The gradient products at each pixel.
pub open spec fn tensors(gray: Seq<u32>, w: int, h: int, tensor: spec_fn([u32; 4]) -> [u32; 3]) -> Seq<[u32; 3]> {
    Seq::new((w * h) as nat, |i: int| tensor(cross(gray, w, h, i)))
}

/// One of the gradient products at each pixel.
pub open spec fn channel(tensors: Seq<[u32; 3]>, c: int) -> Seq<u32> {
    tensors.map_values(|t: [u32; 3]| t[c])
}

fn gradient_products<F: Fn([u32; 4]) -> [u32; 3]>(gray: &Vec<u32>, w: usize, h: usize, f: &F) -> (out: Vec<[u32; 3]>)
    requires
        gray@.len() == w * h,
        w < usize::MAX,
        h < usize::MAX,
        forall|around: [u32; 4]| #[trigger] call_requires(f, (around,)),
    ensures
        out@.len() == gray@.len(),
        forall|tensor: spec_fn([u32; 4]) -> [u32; 3]| #[trigger]
            computes_tensor(*f, tensor) ==> out@ == tensors(gray@, w as int, h as int, tensor),
{
    let total: usize = gray.len();
    let mut out: Vec<[u32; 3]> = Vec::new();
    for i in 0..total
        invariant
            total == gray@.len(),
            gray@.len() == w * h,
            w < usize::MAX,
            h < usize::MAX,
            out@.len() == i,
            forall|around: [u32; 4]| #[trigger] call_requires(f, (around,)),
            forall|tensor: spec_fn([u32; 4]) -> [u32; 3]| #[trigger]
                computes_tensor(*f, tensor) ==> out@ == tensors(gray@, w as int, h as int, tensor).take(i as int),
    {
        proof {
            lemma_coords(i as int, w as int, h as int);
        }
        let (x, y): (usize, usize) = pixel_coords(i, w);
        let xm: usize = x.saturating_sub(1);
        let xp: usize = if x + 1 < w - 1 {
            x + 1
        } else {
            w - 1
        };
        let ym: usize = y.saturating_sub(1);
        let yp: usize = if y + 1 < h - 1 {
            y + 1
        } else {
            h - 1
        };
        proof {
            lemma_row_fits(y as int, w as int, h as int);
            lemma_row_fits(ym as int, w as int, h as int);
            lemma_row_fits(yp as int, w as int, h as int);
        }
        let around: [u32; 4] = [gray[y * w + xm], gray[y * w + xp], gray[ym * w + x], gray[yp * w + x]];
        assert(around == cross(gray@, w as int, h as int, i as int));
        let products: [u32; 3] = f(around);
        out.push(products);
        proof {
            assert forall|tensor: spec_fn([u32; 4]) -> [u32; 3]| #[trigger] computes_tensor(*f, tensor) implies out@
                == tensors(gray@, w as int, h as int, tensor).take(i + 1) by {
                let all = tensors(gray@, w as int, h as int, tensor);
                assert(products == tensor(around));
                assert(all.take(i + 1) =~= all.take(i as int).push(all[i as int]));
            }
        }
    }
    proof {
        assert forall|tensor: spec_fn([u32; 4]) -> [u32; 3]| #[trigger] computes_tensor(*f, tensor) implies out@
            == tensors(gray@, w as int, h as int, tensor) by {
            let all = tensors(gray@, w as int, h as int, tensor);
            assert(all.take(total as int) =~= all);
        }
    }
    out
}

fn take_channel(products: &Vec<[u32; 3]>, c: usize) -> (out: Vec<u32>)
    requires
        c < 3,
    ensures
        out@ == channel(products@, c as int),
{
    let n: usize = products.len();
    let ghost all = channel(products@, c as int);
    let mut out: Vec<u32> = Vec::new();
    for i in 0..n
        invariant
            n == products@.len(),
            c < 3,
            all == channel(products@, c as int),
            out@ == all.take(i as int),
    {
        let p: [u32; 3] = products[i];
        out.push(p[c]);
        assert(all.take(i + 1) =~= all.take(i as int).push(all[i as int]));
    }
    assert(all.take(n as int) =~= all);
    out
}

/// Whether the function always gives what `level` says.
pub open spec fn computes_level<F: Fn([u8; 3]) -> u32>(f: F, level: spec_fn([u8; 3]) -> u32) -> bool {
    forall|rgb: [u8; 3], out: u32| call_ensures(f, (rgb,), out) ==> out == level(rgb)
}

/// The grey level of each pixel.
pub open spec fn gray_levels(bytes: Seq<u8>, n: nat, level: spec_fn([u8; 3]) -> u32) -> Seq<u32> {
    Seq::new(n, |i: int| level([bytes[4 * i], bytes[4 * i + 1], bytes[4 * i + 2]]))
}

fn to_gray<F: Fn([u8; 3]) -> u32>(raster: &RasterImage, f: &F) -> (gray: Vec<u32>)
    requires
        raster.is_rgba(),
        forall|rgb: [u8; 3]| #[trigger] call_requires(f, (rgb,)),
    ensures
        gray@.len() == raster.pixels(),
        forall|level: spec_fn([u8; 3]) -> u32| #[trigger]
            computes_level(*f, level) ==> gray@ == gray_levels(raster.bytes@, raster.pixels() as nat, level),
{
    let total: usize = raster.bytes.len() / 4;
    let mut gray: Vec<u32> = Vec::new();
    for i in 0..total
        invariant
            4 * total == raster.bytes@.len(),
            total == raster.pixels(),
            gray@.len() == i,
            forall|rgb: [u8; 3]| #[trigger] call_requires(f, (rgb,)),
            forall|level: spec_fn([u8; 3]) -> u32| #[trigger]
                computes_level(*f, level) ==> gray@ == gray_levels(raster.bytes@, total as nat, level).take(i as int),
    {
        let len: usize = raster.bytes.len();
        assert(4 * i + 3 < len);
        let rgb: [u8; 3] = [raster.bytes[4 * i], raster.bytes[4 * i + 1], raster.bytes[4 * i + 2]];
        let g: u32 = f(rgb);
        gray.push(g);
        proof {
            assert forall|level: spec_fn([u8; 3]) -> u32| #[trigger] computes_level(*f, level) implies gray@
                == gray_levels(raster.bytes@, total as nat, level).take(i + 1) by {
                let all = gray_levels(raster.bytes@, total as nat, level);
                assert(g == level(rgb));
                assert(all.take(i + 1) =~= all.take(i as int).push(all[i as int]));
            }
        }
    }
    proof {
        assert forall|level: spec_fn([u8; 3]) -> u32| #[trigger] computes_level(*f, level) implies gray@ == gray_levels(
            raster.bytes@,
            total as nat,
            level,
        ) by {
            let all = gray_levels(raster.bytes@, total as nat, level);
            assert(all.take(total as int) =~= all);
        }
    }
    gray
}

/// Whether the function always gives what `determinant` says.
pub open spec fn computes_determinant<F: Fn([u32; 3]) -> u32>(f: F, determinant: spec_fn([u32; 3]) -> u32) -> bool {
    forall|smooth: [u32; 3], out: u32| call_ensures(f, (smooth,), out) ==> out == determinant(smooth)
}

/// The texture at each pixel: the determinant of the gradient products,
/// smoothed over a window.
pub open spec fn texture(
    raster: RasterImage,
    radius: int,
    level: spec_fn([u8; 3]) -> u32,
    tensor: spec_fn([u32; 4]) -> [u32; 3],
    mean: spec_fn(Seq<u32>) -> u32,
    determinant: spec_fn([u32; 3]) -> u32,
) -> Seq<u32> {
    let w = raster.width as int;
    let h = raster.height as int;
    let products = tensors(gray_levels(raster.bytes@, raster.pixels() as nat, level), w, h, tensor);
    let xx = blurred(channel(products, 0), w, h, radius, mean);
    let yy = blurred(channel(products, 1), w, h, radius, mean);
    let xy = blurred(channel(products, 2), w, h, radius, mean);
    Seq::new(raster.pixels() as nat, |i: int| determinant([xx[i], yy[i], xy[i]]))
}

/// How much texture there is around each pixel: the determinant of the
/// smoothed structure tensor. The four functions are the grey level of a
/// pixel, the products `xx`, `yy`, `xy` of the gradients from the four values
/// around a pixel, the mean of values, and the determinant.
pub fn structure_tensor_texture<L, T, M, D>(
    raster: &RasterImage,
    radius: usize,
    level_of: L,
    tensor_of: T,
    mean_of: M,
    determinant_of: D,
) -> (out: Vec<u32>) where
    L: Fn([u8; 3]) -> u32,
    T: Fn([u32; 4]) -> [u32; 3],
    M: Fn(Vec<u32>) -> u32,
    D: Fn([u32; 3]) -> u32,

    requires
        raster.is_rgba(),
        raster.width + radius <= usize::MAX,
        raster.height + radius <= usize::MAX,
        raster.width < usize::MAX,
        raster.height < usize::MAX,
        forall|rgb: [u8; 3]| #[trigger] call_requires(level_of, (rgb,)),
        forall|around: [u32; 4]| #[trigger] call_requires(tensor_of, (around,)),
        forall|values: Vec<u32>| #[trigger] call_requires(mean_of, (values,)),
        forall|smooth: [u32; 3]| #[trigger] call_requires(determinant_of, (smooth,)),
    ensures
        out@.len() == raster.pixels(),
        forall|
            level: spec_fn([u8; 3]) -> u32,
            tensor: spec_fn([u32; 4]) -> [u32; 3],
            mean: spec_fn(Seq<u32>) -> u32,
            determinant: spec_fn([u32; 3]) -> u32,
        |
            #![trigger computes_level(level_of, level), computes_tensor(tensor_of, tensor), computes_mean(mean_of, mean), computes_determinant(determinant_of, determinant)]
            computes_level(level_of, level) && computes_tensor(tensor_of, tensor) && computes_mean(mean_of, mean)
                && computes_determinant(determinant_of, determinant) ==> out@ == texture(
                *raster,
                radius as int,
                level,
                tensor,
                mean,
                determinant,
            ),
{
    let w: usize = raster.width as usize;
    let h: usize = raster.height as usize;
    let gray = to_gray(raster, &level_of);
    let total: usize = gray.len();
    let products = gradient_products(&gray, w, h, &tensor_of);
    let jxx = take_channel(&products, 0);
    let jyy = take_channel(&products, 1);
    let jxy = take_channel(&products, 2);
    let sxx = box_blur(&jxx, w, h, radius, &mean_of);
    let syy = box_blur(&jyy, w, h, radius, &mean_of);
    let sxy = box_blur(&jxy, w, h, radius, &mean_of);
    let mut out: Vec<u32> = Vec::new();
    for i in 0..total
        invariant
            total == sxx@.len(),
            total == syy@.len(),
            total == sxy@.len(),
            out@.len() == i,
            forall|smooth: [u32; 3]| #[trigger] call_requires(determinant_of, (smooth,)),
            forall|determinant: spec_fn([u32; 3]) -> u32| #[trigger]
                computes_determinant(determinant_of, determinant) ==> out@ == Seq::new(
                    i as nat,
                    |k: int| determinant([sxx@[k], syy@[k], sxy@[k]]),
                ),
    {
        let smooth: [u32; 3] = [sxx[i], syy[i], sxy[i]];
        let d: u32 = determinant_of(smooth);
        out.push(d);
        proof {
            assert forall|determinant: spec_fn([u32; 3]) -> u32| #[trigger]
                computes_determinant(determinant_of, determinant) implies out@ == Seq::new(
                (i + 1) as nat,
                |k: int| determinant([sxx@[k], syy@[k], sxy@[k]]),
            ) by {
                assert(d == determinant(smooth));
                assert(out@ =~= Seq::new((i + 1) as nat, |k: int| determinant([sxx@[k], syy@[k], sxy@[k]])));
            }
        }
    }
    out
}

/// Which values are looked at around a pixel: all of those, and only those, in
/// rows and columns that are at most the radius away and in the image. They come
/// row by row.
pub proof fn lemma_window_is_the_neighbourhood(data: Seq<u32>, w: int, h: int, radius: int, u: int, v: int)
    requires
        0 <= u < w,
        0 <= v < h,
        0 <= radius,
        data.len() == w * h,
    ensures
        ({
            let x0 = vstd::math::max(0, u - radius);
            let x1 = vstd::math::min(w - 1, u + radius);
            let y0 = vstd::math::max(0, v - radius);
            let y1 = vstd::math::min(h - 1, v + radius);
            let values = window(data, w, h, radius, v * w + u);
            &&& values.len() == (y1 - y0 + 1) * (x1 - x0 + 1)
            &&& forall|x: int, y: int|
                #![trigger data[y * w + x]]
                x0 <= x <= x1 && y0 <= y <= y1 ==> values[(y - y0) * (x1 - x0 + 1) + (x - x0)] == data[y * w + x]
        }),
{
    vstd::arithmetic::div_mod::lemma_fundamental_div_mod_converse(v * w + u, w, v, u);
    let x0 = vstd::math::max(0, u - radius);
    let x1 = vstd::math::min(w - 1, u + radius);
    let y0 = vstd::math::max(0, v - radius);
    let y1 = vstd::math::min(h - 1, v + radius);
    lemma_block(data, w, h, x0, x1, y0, y1 + 1);
}

proof fn lemma_block(data: Seq<u32>, w: int, h: int, x0: int, x1: int, y0: int, y1: int)
    requires
        0 <= x0 <= x1 < w,
        0 <= y0 <= y1 <= h,
        data.len() == w * h,
    ensures
        block(data, w, x0, x1, y0, y1).len() == (y1 - y0) * (x1 - x0 + 1),
        forall|x: int, y: int|
            #![trigger data[y * w + x]]
            x0 <= x <= x1 && y0 <= y < y1 ==> block(data, w, x0, x1, y0, y1)[(y - y0) * (x1 - x0 + 1) + (x - x0)]
                == data[y * w + x],
    decreases y1 - y0,
{
    let n = x1 - x0 + 1;
    if y0 < y1 {
        let last = y1 - 1;
        lemma_block(data, w, h, x0, x1, y0, last);
        lemma_row_fits(last, w, h);
        let before = block(data, w, x0, x1, y0, last);
        let row = data.subrange(last * w + x0, last * w + x1 + 1);
        let all = block(data, w, x0, x1, y0, y1);
        assert((last - y0) * n + n == (y1 - y0) * n) by (nonlinear_arith)
            requires
                last == y1 - 1,
        ;
        assert forall|x: int, y: int|
            #![trigger data[y * w + x]]
            x0 <= x <= x1 && y0 <= y < y1 implies all[(y - y0) * n + (x - x0)] == data[y * w + x] by {
            let k = (y - y0) * n + (x - x0);
            if y < last {
                assert(0 <= k < before.len()) by (nonlinear_arith)
                    requires
                        k == (y - y0) * n + (x - x0),
                        x0 <= x <= x1,
                        n == x1 - x0 + 1,
                        y0 <= y < last,
                        before.len() == (last - y0) * n,
                ;
                assert(all[k] == before[k]);
            } else {
                assert(k == before.len() + (x - x0));
                assert(all[k] == row[x - x0]);
            }
        }
    } else {
        assert((y1 - y0) * n == 0) by (nonlinear_arith)
            requires
                y1 == y0,
        ;
    }
}

/// A blurred value is the mean of the values around it; without a radius nothing
/// is blurred.
pub proof fn lemma_blur_takes_the_mean(data: Seq<u32>, w: int, h: int, radius: int, mean: spec_fn(Seq<u32>) -> u32, i: int)
    requires
        0 <= i < w * h,
        data.len() == w * h,
    ensures
        radius != 0 ==> blurred(data, w, h, radius, mean)[i] == mean(window(data, w, h, radius, i)),
        radius != 0 ==> blurred(data, w, h, radius, mean).len() == data.len(),
        radius == 0 ==> blurred(data, w, h, radius, mean) == data,
{
}

/// The values around a pixel are those left, right, above and below of it, in
/// this order; at the border the pixel itself stands for what is missing.
pub proof fn lemma_cross_is_around_the_pixel(gray: Seq<u32>, w: int, h: int, u: int, v: int)
    requires
        0 <= u < w,
        0 <= v < h,
    ensures
        ({
            let around = cross(gray, w, h, v * w + u)@;
            let at = |x: int, y: int| gray[y * w + x];
            &&& around.len() == 4
            &&& around[0] == at(if u > 0 { u - 1 } else { u }, v)
            &&& around[1] == at(if u < w - 1 { u + 1 } else { u }, v)
            &&& around[2] == at(u, if v > 0 { v - 1 } else { v })
            &&& around[3] == at(u, if v < h - 1 { v + 1 } else { v })
        }),
{
    vstd::arithmetic::div_mod::lemma_fundamental_div_mod_converse(v * w + u, w, v, u);
}

/// The texture of a pixel is the determinant of its three smoothed gradient
/// products, which come from the grey levels of red, green and blue alone.
pub proof fn lemma_texture_of_a_pixel(
    raster: RasterImage,
    radius: int,
    level: spec_fn([u8; 3]) -> u32,
    tensor: spec_fn([u32; 4]) -> [u32; 3],
    mean: spec_fn(Seq<u32>) -> u32,
    determinant: spec_fn([u32; 3]) -> u32,
    gray: Seq<u32>,
    products: Seq<[u32; 3]>,
    i: int,
)
    requires
        0 <= i < raster.pixels(),
        gray.len() == raster.pixels(),
        forall|k: int|
            0 <= k < gray.len() ==> #[trigger] gray[k] == level(
                [raster.bytes@[4 * k], raster.bytes@[4 * k + 1], raster.bytes@[4 * k + 2]],
            ),
        products.len() == raster.pixels(),
        forall|k: int|
            0 <= k < products.len() ==> #[trigger] products[k] == tensor(
                cross(gray, raster.width as int, raster.height as int, k),
            ),
    ensures
        ({
            let (w, h) = (raster.width as int, raster.height as int);
            let smooth = |c: int| blurred(Seq::new(products.len(), |k: int| products[k][c]), w, h, radius, mean)[i];
            let out = texture(raster, radius, level, tensor, mean, determinant);
            &&& out.len() == raster.pixels()
            &&& out[i] == determinant([smooth(0), smooth(1), smooth(2)])
        }),
{
    let (w, h) = (raster.width as int, raster.height as int);
    assert(gray =~= gray_levels(raster.bytes@, raster.pixels() as nat, level));
    assert(products =~= tensors(gray, w, h, tensor));
    assert(channel(products, 0) =~= Seq::new(products.len(), |k: int| products[k][0]));
    assert(channel(products, 1) =~= Seq::new(products.len(), |k: int| products[k][1]));
    assert(channel(products, 2) =~= Seq::new(products.len(), |k: int| products[k][2]));
}

/// A function that always gives what `mean` says, and no other, is one that
/// computes it.
pub proof fn lemma_computes_mean<F: Fn(Vec<u32>) -> u32>(
    f: F,
    mean: spec_fn(Seq<u32>) -> u32,
)
    ensures
        computes_mean(f, mean) <==> forall|values: Vec<u32>, out: u32| #[trigger]
            call_ensures(f, (values,), out) ==> out == mean(values@),
{
}

/// A function that always gives what `tensor` says, and no other, is one that
/// computes it.
pub proof fn lemma_computes_tensor<F: Fn([u32; 4]) -> [u32; 3]>(
    f: F,
    tensor: spec_fn([u32; 4]) -> [u32; 3],
)
    ensures
        computes_tensor(f, tensor) <==> forall|around: [u32; 4], out: [u32; 3]| #[trigger]
            call_ensures(f, (around,), out) ==> out == tensor(around),
{
}

/// A function that always gives what `level` says, and no other, is one that
/// computes it.
pub proof fn lemma_computes_level<F: Fn([u8; 3]) -> u32>(
    f: F,
    level: spec_fn([u8; 3]) -> u32,
)
    ensures
        computes_level(f, level) <==> forall|rgb: [u8; 3], out: u32| #[trigger]
            call_ensures(f, (rgb,), out) ==> out == level(rgb),
{
}

/// A function that always gives what `determinant` says, and no other, is one that
/// computes it.
pub proof fn lemma_computes_determinant<F: Fn([u32; 3]) -> u32>(
    f: F,
    determinant: spec_fn([u32; 3]) -> u32,
)
    ensures
        computes_determinant(f, determinant) <==> forall|smooth: [u32; 3], out: u32| #[trigger]
            call_ensures(f, (smooth,), out) ==> out == determinant(smooth),
{
}

} // verus!
