use vstd::prelude::*;
use crate::buffer::{clone_samples, lemma_flat_index, BufModel, PixelBuffer};
use crate::quantize::{quantize_spec, lemma_quantize_on_level};
pub use crate::quantize::apply_threshold;

verus! {

use vstd::arithmetic::div_mod::{
    lemma_fundamental_div_mod,
    lemma_fundamental_div_mod_converse,
    lemma_div_multiples_vanish,
    lemma_div_pos_is_pos,
    lemma_div_is_ordered,
};

/// The 4x4 Bayer matrix entry for a row and a column, both taken mod 4.
pub open spec fn bayer_coeff(r: int, c: int) -> int {
    if r == 0 {
        if c == 0 { 0 } else if c == 1 { 8 } else if c == 2 { 2 } else { 10 }
    } else if r == 1 {
        if c == 0 { 12 } else if c == 1 { 4 } else if c == 2 { 14 } else { 6 }
    } else if r == 2 {
        if c == 0 { 3 } else if c == 1 { 11 } else if c == 2 { 1 } else { 9 }
    } else {
        if c == 0 { 15 } else if c == 1 { 7 } else if c == 2 { 13 } else { 5 }
    }
}

/// Ordered threshold of the pixel at `(x, y)`: its Bayer entry scaled into
/// byte range by `entry * 255 / 16`.
pub open spec fn bayer_threshold_spec(x: int, y: int) -> u8 {
    (bayer_coeff(y % 4, x % 4) * 255 / 16) as u8
}

/// Computes the ordered threshold for a pixel position.
pub fn bayer_threshold(x: usize, y: usize) -> (t: u8)
    ensures
        t == bayer_threshold_spec(x as int, y as int),
{
    let r = y % 4;
    let c = x % 4;
    let coeff: usize = if r == 0 {
        if c == 0 { 0 } else if c == 1 { 8 } else if c == 2 { 2 } else { 10 }
    } else if r == 1 {
        if c == 0 { 12 } else if c == 1 { 4 } else if c == 2 { 14 } else { 6 }
    } else if r == 2 {
        if c == 0 { 3 } else if c == 1 { 11 } else if c == 2 { 1 } else { 9 }
    } else {
        if c == 0 { 15 } else if c == 1 { 7 } else if c == 2 { 13 } else { 5 }
    };
    (coeff * 255 / 16) as u8
}

/// Sample `i` after ordered grayscale dithering: color channels carry the
/// pixel's channel-0 value quantized to 16 levels under the pixel's Bayer
/// threshold; alpha is untouched.
pub open spec fn ordered_gray_sample(m: BufModel, i: int) -> u8 {
    let p = i / 4;
    if i % 4 == 3 {
        m.data[i]
    } else {
        quantize_spec(m.data[p * 4], bayer_threshold_spec(p % m.width, p / m.width), 16)
    }
}

/// The raster after ordered grayscale dithering.
pub open spec fn ordered_gray_spec(m: BufModel) -> BufModel {
    BufModel {
        width: m.width,
        height: m.height,
        data: Seq::new(m.data.len(), |i: int| ordered_gray_sample(m, i)),
    }
}

/// Sample `i` after ordered color dithering: each color channel is quantized
/// independently to 6 levels under the pixel's Bayer threshold.
pub open spec fn ordered_color_sample(m: BufModel, i: int) -> u8 {
    let p = i / 4;
    if i % 4 == 3 {
        m.data[i]
    } else {
        quantize_spec(m.data[i], bayer_threshold_spec(p % m.width, p / m.width), 6)
    }
}

/// The raster after ordered color dithering.
pub open spec fn ordered_color_spec(m: BufModel) -> BufModel {
    BufModel {
        width: m.width,
        height: m.height,
        data: Seq::new(m.data.len(), |i: int| ordered_color_sample(m, i)),
    }
}

/// Every color sample of an ordered-dithered grayscale raster lies on one of
/// the 16 representable levels, the multiples of 17.
pub proof fn lemma_ordered_gray_levels(m: BufModel)
    ensures
        forall|i: int|
            0 <= i < ordered_gray_spec(m).data.len() && i % 4 != 3
                ==> #[trigger] ordered_gray_spec(m).data[i] as int % 17 == 0,
{
    assert forall|i: int|
        0 <= i < ordered_gray_spec(m).data.len() && i % 4 != 3 implies #[trigger] ordered_gray_spec(
        m,
    ).data[i] as int % 17 == 0 by {
        let p = i / 4;
        lemma_quantize_on_level(
            m.data[p * 4],
            bayer_threshold_spec(p % m.width, p / m.width),
            16,
        );
    }
}

/// Every color sample of an ordered-dithered color raster lies on one of the
/// 6 representable levels per channel, the multiples of 51.
pub proof fn lemma_ordered_color_levels(m: BufModel)
    ensures
        forall|i: int|
            0 <= i < ordered_color_spec(m).data.len() && i % 4 != 3
                ==> #[trigger] ordered_color_spec(m).data[i] as int % 51 == 0,
{
    assert forall|i: int|
        0 <= i < ordered_color_spec(m).data.len() && i % 4 != 3
        implies #[trigger] ordered_color_spec(m).data[i] as int % 51 == 0 by {
        let p = i / 4;
        lemma_quantize_on_level(m.data[i], bayer_threshold_spec(p % m.width, p / m.width), 6);
    }
}

/// Applies ordered (Bayer) dithering to a grayscale raster: every pixel is
/// quantized to 16 levels, independently of every other pixel.
pub fn apply_ordered_dithering(img: &PixelBuffer) -> (r: PixelBuffer)
    requires
        img.wf(),
    ensures
        r.wf(),
        r@ == ordered_gray_spec(img@),
        r@.width == img@.width,
        r@.height == img@.height,
{
    let ghost m = img@;
    let total = img.data.len();
    let npix = total / 4;
    proof {
        assert(total == 4 * (m.width * m.height));
        lemma_div_multiples_vanish(m.width * m.height, 4);
    }
    let w = img.width;
    let mut data: Vec<u8> = Vec::new();
    let mut p: usize = 0;
    while p < npix
        invariant
            img.wf(),
            m == img@,
            w == img.width,
            npix == m.width * m.height,
            npix * 4 == img@.data.len(),
            npix * 4 <= usize::MAX,
            p <= npix,
            data@.len() == p * 4,
            forall|j: int| 0 <= j < p * 4 ==> data@[j] == ordered_gray_sample(m, j),
        decreases npix - p,
    {
        proof {
            assert(p * 4 + 3 < npix * 4 && w >= 1) by (nonlinear_arith)
                requires
                    p < npix,
                    0 <= p,
                    npix == m.width * m.height,
                    w as int == m.width,
                    0 <= m.height,
            ;
        }
        let x = p % w;
        let y = p / w;
        let t = bayer_threshold(x, y);
        let v = img.data[p * 4];
        let a = img.data[p * 4 + 3];
        proof {
            assert(16usize <= usize::MAX / 256) by (nonlinear_arith)
                requires
                    usize::MAX >= 65535,
            ;
        }
        let q = apply_threshold(v, t, 16);
        data.push(q);
        data.push(q);
        data.push(q);
        data.push(a);
        proof {
            lemma_flat_index(p as int, 0);
            lemma_flat_index(p as int, 1);
            lemma_flat_index(p as int, 2);
            lemma_flat_index(p as int, 3);
            assert(data@[p * 4 + 0] == ordered_gray_sample(m, p * 4 + 0));
            assert(data@[p * 4 + 1] == ordered_gray_sample(m, p * 4 + 1));
            assert(data@[p * 4 + 2] == ordered_gray_sample(m, p * 4 + 2));
            assert(data@[p * 4 + 3] == ordered_gray_sample(m, p * 4 + 3));
            assert(data@.len() == (p + 1) * 4);
        }
        p = p + 1;
    }
    let r = PixelBuffer { width: img.width, height: img.height, data };
    proof {
        assert(r@.data =~= ordered_gray_spec(m).data);
        assert(r@ =~= ordered_gray_spec(m));
    }
    r
}

/// Applies ordered (Bayer) dithering to a color raster: each color channel is
/// quantized to 6 levels, independently of every other pixel.
pub fn apply_color_ordered_dithering(img: &PixelBuffer) -> (r: PixelBuffer)
    requires
        img.wf(),
    ensures
        r.wf(),
        r@ == ordered_color_spec(img@),
        r@.width == img@.width,
        r@.height == img@.height,
{
    let ghost m = img@;
    let total = img.data.len();
    let npix = total / 4;
    proof {
        assert(total == 4 * (m.width * m.height));
        lemma_div_multiples_vanish(m.width * m.height, 4);
    }
    let w = img.width;
    let mut data: Vec<u8> = Vec::new();
    let mut p: usize = 0;
    while p < npix
        invariant
            img.wf(),
            m == img@,
            w == img.width,
            npix == m.width * m.height,
            npix * 4 == img@.data.len(),
            npix * 4 <= usize::MAX,
            p <= npix,
            data@.len() == p * 4,
            forall|j: int| 0 <= j < p * 4 ==> data@[j] == ordered_color_sample(m, j),
        decreases npix - p,
    {
        proof {
            assert(p * 4 + 3 < npix * 4 && w >= 1) by (nonlinear_arith)
                requires
                    p < npix,
                    0 <= p,
                    npix == m.width * m.height,
                    w as int == m.width,
                    0 <= m.height,
            ;
            assert(6usize <= usize::MAX / 256) by (nonlinear_arith)
                requires
                    usize::MAX >= 65535,
            ;
        }
        let x = p % w;
        let y = p / w;
        let t = bayer_threshold(x, y);
        let qr = apply_threshold(img.data[p * 4], t, 6);
        let qg = apply_threshold(img.data[p * 4 + 1], t, 6);
        let qb = apply_threshold(img.data[p * 4 + 2], t, 6);
        let a = img.data[p * 4 + 3];
        data.push(qr);
        data.push(qg);
        data.push(qb);
        data.push(a);
        proof {
            lemma_flat_index(p as int, 0);
            lemma_flat_index(p as int, 1);
            lemma_flat_index(p as int, 2);
            lemma_flat_index(p as int, 3);
            assert(data@[p * 4 + 0] == ordered_color_sample(m, p * 4 + 0));
            assert(data@[p * 4 + 1] == ordered_color_sample(m, p * 4 + 1));
            assert(data@[p * 4 + 2] == ordered_color_sample(m, p * 4 + 2));
            assert(data@[p * 4 + 3] == ordered_color_sample(m, p * 4 + 3));
            assert(data@.len() == (p + 1) * 4);
        }
        p = p + 1;
    }
    let r = PixelBuffer { width: img.width, height: img.height, data };
    proof {
        assert(r@.data =~= ordered_color_spec(m).data);
        assert(r@ =~= ordered_color_spec(m));
    }
    r
}

/// A byte plus a non-negative correction, saturating at 255.
pub open spec fn clamp_add(p: u8, add: int) -> u8 {
    if p + add > 255 {
        255u8
    } else {
        (p + add) as u8
    }
}

/// A sample floored to the nearest multiple of the quantization step.
pub open spec fn floor_quant(v: u8, step: int) -> u8 {
    (v as int / step * step) as u8
}

/// Adds a diffusion share, `error * num / 16`, to a sample with saturation.
fn add_clamped(p: u8, error: u8, num: u8) -> (r: u8)
    requires
        num <= 7,
    ensures
        r == clamp_add(p, error as int * num as int / 16),
{
    proof {
        assert(error as int * num as int <= 1785) by (nonlinear_arith)
            requires
                0 <= error <= 255,
                0 <= num <= 7,
        ;
    }
    let share = error as usize * num as usize / 16;
    proof {
        lemma_div_pos_is_pos(error as int * num as int, 16);
        lemma_div_is_ordered(error as int * num as int, 1785, 16);
    }
    let sum = p as usize + share;
    if sum > 255 {
        255
    } else {
        sum as u8
    }
}

/// Grayscale diffusion into one neighbor: its channel-0 value plus the share
/// `e * num / 16`, saturated, written to all three color channels.
pub open spec fn spread_gray(d: Seq<u8>, j: int, e: int, num: int) -> Seq<u8> {
    let v = clamp_add(d[j], e * num / 16);
    d.update(j, v).update(j + 1, v).update(j + 2, v)
}

/// Color diffusion into one neighbor: each color channel gets its own error's
/// share `e * num / 16`, saturated.
pub open spec fn spread_color(d: Seq<u8>, j: int, er: int, eg: int, eb: int, num: int) -> Seq<u8> {
    d.update(j, clamp_add(d[j], er * num / 16)).update(j + 1, clamp_add(d[j + 1], eg * num / 16))
        .update(j + 2, clamp_add(d[j + 2], eb * num / 16))
}

/// One grayscale Floyd-Steinberg visit at interior pixel `(x, y)`: quantize
/// channel 0 to a multiple of 16, write it to the color channels, then spread
/// the residual east (7/16), southwest (3/16), south (5/16) and southeast
/// (1/16), in that order.
pub open spec fn fs_gray_step(d: Seq<u8>, w: int, x: int, y: int) -> Seq<u8> {
    let idx = (y * w + x) * 4;
    let old_v = d[idx];
    let new_v = floor_quant(old_v, 16);
    let e = old_v - new_v;
    let d0 = d.update(idx, new_v).update(idx + 1, new_v).update(idx + 2, new_v);
    let d1 = spread_gray(d0, (y * w + x + 1) * 4, e, 7);
    let d2 = spread_gray(d1, ((y + 1) * w + x - 1) * 4, e, 3);
    let d3 = spread_gray(d2, ((y + 1) * w + x) * 4, e, 5);
    spread_gray(d3, ((y + 1) * w + x + 1) * 4, e, 1)
}

/// One color Floyd-Steinberg visit: each color channel is floored to a
/// multiple of 42 and its own residual is spread to the same four neighbors.
pub open spec fn fs_color_step(d: Seq<u8>, w: int, x: int, y: int) -> Seq<u8> {
    let idx = (y * w + x) * 4;
    let er = d[idx] - floor_quant(d[idx], 42);
    let eg = d[idx + 1] - floor_quant(d[idx + 1], 42);
    let eb = d[idx + 2] - floor_quant(d[idx + 2], 42);
    let d0 = d.update(idx, floor_quant(d[idx], 42)).update(
        idx + 1,
        floor_quant(d[idx + 1], 42),
    ).update(idx + 2, floor_quant(d[idx + 2], 42));
    let d1 = spread_color(d0, (y * w + x + 1) * 4, er, eg, eb, 7);
    let d2 = spread_color(d1, ((y + 1) * w + x - 1) * 4, er, eg, eb, 3);
    let d3 = spread_color(d2, ((y + 1) * w + x) * 4, er, eg, eb, 5);
    spread_color(d3, ((y + 1) * w + x + 1) * 4, er, eg, eb, 1)
}

/// A grayscale diffusion row from column `x` to the last interior column.
pub open spec fn fs_gray_row(d: Seq<u8>, w: int, x: int, y: int) -> Seq<u8>
    decreases w - 1 - x,
{
    if x < 1 || w - 1 <= x {
        d
    } else {
        fs_gray_row(fs_gray_step(d, w, x, y), w, x + 1, y)
    }
}

/// Grayscale diffusion over the rows from `y` to the last interior row, each
/// row scanned left to right: the raster order the algorithm requires.
pub open spec fn fs_gray_from(d: Seq<u8>, w: int, h: int, y: int) -> Seq<u8>
    decreases h - 1 - y,
{
    if y < 0 || h - 1 <= y {
        d
    } else {
        fs_gray_from(fs_gray_row(d, w, 1, y), w, h, y + 1)
    }
}

/// The raster after grayscale Floyd-Steinberg dithering.
pub open spec fn fs_gray_spec(m: BufModel) -> BufModel {
    BufModel { width: m.width, height: m.height, data: fs_gray_from(m.data, m.width, m.height, 0) }
}

/// A color diffusion row, as `fs_gray_row`.
pub open spec fn fs_color_row(d: Seq<u8>, w: int, x: int, y: int) -> Seq<u8>
    decreases w - 1 - x,
{
    if x < 1 || w - 1 <= x {
        d
    } else {
        fs_color_row(fs_color_step(d, w, x, y), w, x + 1, y)
    }
}

/// Color diffusion over the rows from `y` on, in raster order.
pub open spec fn fs_color_from(d: Seq<u8>, w: int, h: int, y: int) -> Seq<u8>
    decreases h - 1 - y,
{
    if y < 0 || h - 1 <= y {
        d
    } else {
        fs_color_from(fs_color_row(d, w, 1, y), w, h, y + 1)
    }
}

/// The raster after color Floyd-Steinberg dithering.
pub open spec fn fs_color_spec(m: BufModel) -> BufModel {
    BufModel {
        width: m.width,
        height: m.height,
        data: fs_color_from(m.data, m.width, m.height, 0),
    }
}

/// A raster too narrow for interior columns is left untouched by the
/// grayscale diffusion pass.
proof fn lemma_fs_gray_from_narrow(d: Seq<u8>, w: int, h: int, y: int)
    requires
        w < 3,
    ensures
        fs_gray_from(d, w, h, y) == d,
    decreases h - 1 - y,
{
    if !(y < 0 || h - 1 <= y) {
        assert(fs_gray_row(d, w, 1, y) == d);
        lemma_fs_gray_from_narrow(d, w, h, y + 1);
    }
}

/// A raster too narrow for interior columns is left untouched by the color
/// diffusion pass.
proof fn lemma_fs_color_from_narrow(d: Seq<u8>, w: int, h: int, y: int)
    requires
        w < 3,
    ensures
        fs_color_from(d, w, h, y) == d,
    decreases h - 1 - y,
{
    if !(y < 0 || h - 1 <= y) {
        assert(fs_color_row(d, w, 1, y) == d);
        lemma_fs_color_from_narrow(d, w, h, y + 1);
    }
}

/// Indices touched by one diffusion visit stay inside the raster.
proof fn lemma_fs_step_bounds(w: int, h: int, x: int, y: int)
    requires
        3 <= w,
        2 <= h,
        1 <= x < w - 1,
        0 <= y < h - 1,
    ensures
        0 <= (y * w + x) * 4,
        (y * w + x) * 4 + 3 < w * h * 4,
        0 <= (y * w + x + 1) * 4,
        (y * w + x + 1) * 4 + 3 < w * h * 4,
        0 <= ((y + 1) * w + x - 1) * 4,
        ((y + 1) * w + x - 1) * 4 + 3 < w * h * 4,
        0 <= ((y + 1) * w + x) * 4,
        ((y + 1) * w + x) * 4 + 3 < w * h * 4,
        0 <= ((y + 1) * w + x + 1) * 4,
        ((y + 1) * w + x + 1) * 4 + 3 < w * h * 4,
{
    assert((y * w + x) * 4 >= 0 && (y * w + x + 1) * 4 + 3 < w * h * 4 && ((y + 1) * w + x - 1) * 4
        >= 0 && ((y + 1) * w + x + 1) * 4 + 3 < w * h * 4 && (y * w + x) <= (y * w + x + 1) && ((y
        + 1) * w + x - 1) <= ((y + 1) * w + x + 1) && ((y + 1) * w + x) <= ((y + 1) * w + x + 1))
        by (nonlinear_arith)
        requires
            3 <= w,
            2 <= h,
            1 <= x < w - 1,
            0 <= y < h - 1,
    ;
}

/// Applies grayscale Floyd-Steinberg dithering: a single sequential raster
/// scan over the interior pixels, quantizing each to 16 levels and diffusing
/// the residual to not-yet-visited neighbors in place.  The first and last
/// columns and the last row are never quantized themselves.
pub fn apply_floyd_steinberg_dithering(img: &PixelBuffer) -> (r: PixelBuffer)
    requires
        img.wf(),
    ensures
        r.wf(),
        r@ == fs_gray_spec(img@),
        r@.width == img@.width,
        r@.height == img@.height,
{
    let ghost m = img@;
    let w = img.width;
    let h = img.height;
    let mut dithered = clone_samples(&img.data);
    proof {
        assert(img.data.len() == img.data@.len());
    }
    if w < 3 || h < 2 {
        proof {
            if w < 3 {
                lemma_fs_gray_from_narrow(m.data, w as int, h as int, 0);
            }
            // When h < 2 the row recursion is immediately in its base case.
        }
        let r = PixelBuffer { width: w, height: h, data: dithered };
        proof {
            assert(r@ =~= fs_gray_spec(m));
        }
        return r;
    }
    let ghost target = fs_gray_from(m.data, w as int, h as int, 0);
    let mut y: usize = 0;
    while y < h - 1
        invariant
            3 <= w,
            2 <= h,
            y <= h - 1,
            dithered@.len() == w * h * 4,
            w * h * 4 <= usize::MAX,
            fs_gray_from(dithered@, w as int, h as int, y as int) == target,
        decreases h - 1 - y,
    {
        let mut x: usize = 1;
        while x < w - 1
            invariant
                3 <= w,
                2 <= h,
                y < h - 1,
                1 <= x <= w - 1,
                dithered@.len() == w * h * 4,
                w * h * 4 <= usize::MAX,
                fs_gray_from(
                    fs_gray_row(dithered@, w as int, x as int, y as int),
                    w as int,
                    h as int,
                    y as int + 1,
                ) == target,
            decreases w - 1 - x,
        {
            proof {
                lemma_fs_step_bounds(w as int, h as int, x as int, y as int);
            }
            let ghost before = dithered@;
            let idx = (y * w + x) * 4;
            let old_v = dithered[idx];
            let new_v = old_v / 16 * 16;
            dithered.set(idx, new_v);
            dithered.set(idx + 1, new_v);
            dithered.set(idx + 2, new_v);
            let e = old_v - new_v;
            let ie = (y * w + x + 1) * 4;
            let ev = add_clamped(dithered[ie], e, 7);
            dithered.set(ie, ev);
            dithered.set(ie + 1, ev);
            dithered.set(ie + 2, ev);
            let isw = ((y + 1) * w + x - 1) * 4;
            let swv = add_clamped(dithered[isw], e, 3);
            dithered.set(isw, swv);
            dithered.set(isw + 1, swv);
            dithered.set(isw + 2, swv);
            let is0 = ((y + 1) * w + x) * 4;
            let sv = add_clamped(dithered[is0], e, 5);
            dithered.set(is0, sv);
            dithered.set(is0 + 1, sv);
            dithered.set(is0 + 2, sv);
            let ise = ((y + 1) * w + x + 1) * 4;
            let sev = add_clamped(dithered[ise], e, 1);
            dithered.set(ise, sev);
            dithered.set(ise + 1, sev);
            dithered.set(ise + 2, sev);
            proof {
                assert(dithered@ == fs_gray_step(before, w as int, x as int, y as int));
                assert(fs_gray_row(before, w as int, x as int, y as int) == fs_gray_row(
                    dithered@,
                    w as int,
                    x as int + 1,
                    y as int,
                ));
            }
            x = x + 1;
        }
        proof {
            assert(fs_gray_row(dithered@, w as int, x as int, y as int) == dithered@);
        }
        y = y + 1;
    }
    proof {
        assert(fs_gray_from(dithered@, w as int, h as int, y as int) == dithered@);
    }
    let r = PixelBuffer { width: w, height: h, data: dithered };
    proof {
        assert(r@ =~= fs_gray_spec(m));
    }
    r
}

/// Applies color Floyd-Steinberg dithering: the same sequential raster scan,
/// with each color channel quantized to 6 levels and diffusing its own
/// residual.
pub fn apply_color_dithering(img: &PixelBuffer) -> (r: PixelBuffer)
    requires
        img.wf(),
    ensures
        r.wf(),
        r@ == fs_color_spec(img@),
        r@.width == img@.width,
        r@.height == img@.height,
{
    let ghost m = img@;
    let w = img.width;
    let h = img.height;
    let mut dithered = clone_samples(&img.data);
    proof {
        assert(img.data.len() == img.data@.len());
    }
    if w < 3 || h < 2 {
        proof {
            if w < 3 {
                lemma_fs_color_from_narrow(m.data, w as int, h as int, 0);
            }
        }
        let r = PixelBuffer { width: w, height: h, data: dithered };
        proof {
            assert(r@ =~= fs_color_spec(m));
        }
        return r;
    }
    let ghost target = fs_color_from(m.data, w as int, h as int, 0);
    let mut y: usize = 0;
    while y < h - 1
        invariant
            3 <= w,
            2 <= h,
            y <= h - 1,
            dithered@.len() == w * h * 4,
            w * h * 4 <= usize::MAX,
            fs_color_from(dithered@, w as int, h as int, y as int) == target,
        decreases h - 1 - y,
    {
        let mut x: usize = 1;
        while x < w - 1
            invariant
                3 <= w,
                2 <= h,
                y < h - 1,
                1 <= x <= w - 1,
                dithered@.len() == w * h * 4,
                w * h * 4 <= usize::MAX,
                fs_color_from(
                    fs_color_row(dithered@, w as int, x as int, y as int),
                    w as int,
                    h as int,
                    y as int + 1,
                ) == target,
            decreases w - 1 - x,
        {
            proof {
                lemma_fs_step_bounds(w as int, h as int, x as int, y as int);
            }
            let ghost before = dithered@;
            let idx = (y * w + x) * 4;
            let old_r = dithered[idx];
            let old_g = dithered[idx + 1];
            let old_b = dithered[idx + 2];
            let new_r = old_r / 42 * 42;
            let new_g = old_g / 42 * 42;
            let new_b = old_b / 42 * 42;
            dithered.set(idx, new_r);
            dithered.set(idx + 1, new_g);
            dithered.set(idx + 2, new_b);
            let er = old_r - new_r;
            let eg = old_g - new_g;
            let eb = old_b - new_b;
            let ie = (y * w + x + 1) * 4;
            let e0 = add_clamped(dithered[ie], er, 7);
            let e1 = add_clamped(dithered[ie + 1], eg, 7);
            let e2 = add_clamped(dithered[ie + 2], eb, 7);
            dithered.set(ie, e0);
            dithered.set(ie + 1, e1);
            dithered.set(ie + 2, e2);
            let isw = ((y + 1) * w + x - 1) * 4;
            let sw0 = add_clamped(dithered[isw], er, 3);
            let sw1 = add_clamped(dithered[isw + 1], eg, 3);
            let sw2 = add_clamped(dithered[isw + 2], eb, 3);
            dithered.set(isw, sw0);
            dithered.set(isw + 1, sw1);
            dithered.set(isw + 2, sw2);
            let is0 = ((y + 1) * w + x) * 4;
            let s0 = add_clamped(dithered[is0], er, 5);
            let s1 = add_clamped(dithered[is0 + 1], eg, 5);
            let s2 = add_clamped(dithered[is0 + 2], eb, 5);
            dithered.set(is0, s0);
            dithered.set(is0 + 1, s1);
            dithered.set(is0 + 2, s2);
            let ise = ((y + 1) * w + x + 1) * 4;
            let se0 = add_clamped(dithered[ise], er, 1);
            let se1 = add_clamped(dithered[ise + 1], eg, 1);
            let se2 = add_clamped(dithered[ise + 2], eb, 1);
            dithered.set(ise, se0);
            dithered.set(ise + 1, se1);
            dithered.set(ise + 2, se2);
            proof {
                assert(dithered@ == fs_color_step(before, w as int, x as int, y as int));
                assert(fs_color_row(before, w as int, x as int, y as int) == fs_color_row(
                    dithered@,
                    w as int,
                    x as int + 1,
                    y as int,
                ));
            }
            x = x + 1;
        }
        proof {
            assert(fs_color_row(dithered@, w as int, x as int, y as int) == dithered@);
        }
        y = y + 1;
    }
    proof {
        assert(fs_color_from(dithered@, w as int, h as int, y as int) == dithered@);
    }
    let r = PixelBuffer { width: w, height: h, data: dithered };
    proof {
        assert(r@ =~= fs_color_spec(m));
    }
    r
}

/// The total residual a diffusion visit hands to its four neighbors before
/// any saturation: the 7, 3, 5 and 1 sixteenths shares.
pub open spec fn diffused_total(e: int) -> int {
    e * 7 / 16 + e * 3 / 16 + e * 5 / 16 + e * 1 / 16
}

/// The four shares decompose over quotient and remainder by sixteen.
proof fn lemma_diffused_total_decomposition(e: int)
    requires
        0 <= e,
    ensures
        diffused_total(e) == 16 * (e / 16) + diffused_total(e % 16),
{
    let q = e / 16;
    let r = e % 16;
    lemma_fundamental_div_mod(e, 16);
    assert(e == 16 * q + r);
    assert(e * 7 == 16 * (7 * q) + r * 7);
    assert(e * 3 == 16 * (3 * q) + r * 3);
    assert(e * 5 == 16 * (5 * q) + r * 5);
    assert(e * 1 == 16 * (1 * q) + r * 1);
    lemma_fundamental_div_mod(r * 7, 16);
    lemma_fundamental_div_mod_converse(
        16 * (7 * q) + r * 7,
        16,
        7 * q + r * 7 / 16,
        (r * 7) % 16,
    );
    lemma_fundamental_div_mod(r * 3, 16);
    lemma_fundamental_div_mod_converse(
        16 * (3 * q) + r * 3,
        16,
        3 * q + r * 3 / 16,
        (r * 3) % 16,
    );
    lemma_fundamental_div_mod(r * 5, 16);
    lemma_fundamental_div_mod_converse(
        16 * (5 * q) + r * 5,
        16,
        5 * q + r * 5 / 16,
        (r * 5) % 16,
    );
    lemma_fundamental_div_mod(r * 1, 16);
    lemma_fundamental_div_mod_converse(
        16 * (1 * q) + r * 1,
        16,
        1 * q + r * 1 / 16,
        (r * 1) % 16,
    );
}

/// The sixteenths shares of a residual sum back to the residual exactly when
/// sixteen divides it, as in the synthetic conservation scenarios; otherwise
/// truncation loses up to three sixteenths, never more.
pub proof fn lemma_diffusion_conservation(e: int)
    requires
        0 <= e,
    ensures
        e - 3 <= diffused_total(e) <= e,
        e % 16 == 0 ==> diffused_total(e) == e,
{
    lemma_diffused_total_decomposition(e);
    lemma_fundamental_div_mod(e, 16);
    let r = e % 16;
    assert(0 <= r < 16);
    assert(diffused_total(0) == 0);
    assert(diffused_total(1) == 0);
    assert(diffused_total(2) == 0);
    assert(diffused_total(3) == 1);
    assert(diffused_total(4) == 2);
    assert(diffused_total(5) == 3);
    assert(diffused_total(6) == 4);
    assert(diffused_total(7) == 6);
    assert(diffused_total(8) == 6);
    assert(diffused_total(9) == 6);
    assert(diffused_total(10) == 8);
    assert(diffused_total(11) == 9);
    assert(diffused_total(12) == 10);
    assert(diffused_total(13) == 11);
    assert(diffused_total(14) == 12);
    assert(diffused_total(15) == 12);
    assert(r - 3 <= diffused_total(r) <= r);
}

/// Residual conservation at one interior grayscale diffusion visit: when
/// none of the four neighbor additions saturates, the channel-0 deltas the
/// neighbors receive sum to the shares' total `diffused_total`; a residual
/// that sixteen divides (only zero, in this mode's 16-wide steps) is handed
/// on exactly.
#[verifier::rlimit(100)]
pub proof fn lemma_fs_gray_step_conserves(d: Seq<u8>, w: int, h: int, x: int, y: int)
    requires
        3 <= w,
        2 <= h,
        1 <= x < w - 1,
        0 <= y < h - 1,
        d.len() == w * h * 4,
        d[(y * w + x + 1) * 4] + (d[(y * w + x) * 4] - floor_quant(d[(y * w + x) * 4], 16)) * 7
            / 16 <= 255,
        d[((y + 1) * w + x - 1) * 4] + (d[(y * w + x) * 4] - floor_quant(d[(y * w + x) * 4], 16))
            * 3 / 16 <= 255,
        d[((y + 1) * w + x) * 4] + (d[(y * w + x) * 4] - floor_quant(d[(y * w + x) * 4], 16)) * 5
            / 16 <= 255,
        d[((y + 1) * w + x + 1) * 4] + (d[(y * w + x) * 4] - floor_quant(d[(y * w + x) * 4], 16))
            * 1 / 16 <= 255,
    ensures
        ({
            let e = d[(y * w + x) * 4] - floor_quant(d[(y * w + x) * 4], 16);
            let d4 = fs_gray_step(d, w, x, y);
            let handed = (d4[(y * w + x + 1) * 4] - d[(y * w + x + 1) * 4]) + (d4[((y + 1) * w + x
                - 1) * 4] - d[((y + 1) * w + x - 1) * 4]) + (d4[((y + 1) * w + x) * 4] - d[((y + 1)
                * w + x) * 4]) + (d4[((y + 1) * w + x + 1) * 4] - d[((y + 1) * w + x + 1) * 4]);
            handed == diffused_total(e) && (e % 16 == 0 ==> handed == e)
        }),
{
    lemma_fs_step_bounds(w, h, x, y);
    assert((y + 1) * w == y * w + w) by (nonlinear_arith);
    let pc = y * w + x;
    let pe = y * w + x + 1;
    let psw = (y + 1) * w + x - 1;
    let ps = (y + 1) * w + x;
    let pse = (y + 1) * w + x + 1;
    assert(pe == pc + 1 && psw == pc + w - 1 && ps == pc + w && pse == pc + w + 1);
    let e = d[pc * 4] - floor_quant(d[pc * 4], 16);
    assert(0 <= e) by {
        lemma_fundamental_div_mod(d[pc * 4] as int, 16);
    }
    let d4 = fs_gray_step(d, w, x, y);
    assert(d4[pe * 4] == d[pe * 4] + e * 7 / 16);
    assert(d4[psw * 4] == d[psw * 4] + e * 3 / 16);
    assert(d4[ps * 4] == d[ps * 4] + e * 5 / 16);
    assert(d4[pse * 4] == d[pse * 4] + e * 1 / 16);
    lemma_diffusion_conservation(e);
}

/// Residual conservation at one interior color diffusion visit, per channel:
/// when none of the four neighbor additions saturates, the deltas the
/// neighbors receive sum to the shares' total `diffused_total`, and a
/// residual that sixteen divides is handed on exactly.
#[verifier::rlimit(100)]
pub proof fn lemma_fs_color_step_conserves(d: Seq<u8>, w: int, h: int, x: int, y: int, c: int)
    requires
        3 <= w,
        2 <= h,
        1 <= x < w - 1,
        0 <= y < h - 1,
        d.len() == w * h * 4,
        0 <= c < 3,
        d[(y * w + x + 1) * 4 + c] + (d[(y * w + x) * 4 + c] - floor_quant(
            d[(y * w + x) * 4 + c],
            42,
        )) * 7 / 16 <= 255,
        d[((y + 1) * w + x - 1) * 4 + c] + (d[(y * w + x) * 4 + c] - floor_quant(
            d[(y * w + x) * 4 + c],
            42,
        )) * 3 / 16 <= 255,
        d[((y + 1) * w + x) * 4 + c] + (d[(y * w + x) * 4 + c] - floor_quant(
            d[(y * w + x) * 4 + c],
            42,
        )) * 5 / 16 <= 255,
        d[((y + 1) * w + x + 1) * 4 + c] + (d[(y * w + x) * 4 + c] - floor_quant(
            d[(y * w + x) * 4 + c],
            42,
        )) * 1 / 16 <= 255,
    ensures
        ({
            let e = d[(y * w + x) * 4 + c] - floor_quant(d[(y * w + x) * 4 + c], 42);
            let d4 = fs_color_step(d, w, x, y);
            let handed = (d4[(y * w + x + 1) * 4 + c] - d[(y * w + x + 1) * 4 + c]) + (d4[((y + 1)
                * w + x - 1) * 4 + c] - d[((y + 1) * w + x - 1) * 4 + c]) + (d4[((y + 1) * w + x)
                * 4 + c] - d[((y + 1) * w + x) * 4 + c]) + (d4[((y + 1) * w + x + 1) * 4 + c] - d[
                ((y + 1) * w + x + 1) * 4 + c]);
            handed == diffused_total(e) && (e % 16 == 0 ==> handed == e)
        }),
{
    lemma_fs_step_bounds(w, h, x, y);
    assert((y + 1) * w == y * w + w) by (nonlinear_arith);
    let pc = y * w + x;
    let pe = y * w + x + 1;
    let psw = (y + 1) * w + x - 1;
    let ps = (y + 1) * w + x;
    let pse = (y + 1) * w + x + 1;
    assert(pe == pc + 1 && psw == pc + w - 1 && ps == pc + w && pse == pc + w + 1);
    let e = d[pc * 4 + c] - floor_quant(d[pc * 4 + c], 42);
    assert(0 <= e) by {
        lemma_fundamental_div_mod(d[pc * 4 + c] as int, 42);
    }
    let d4 = fs_color_step(d, w, x, y);
    assert(d4[pe * 4 + c] == d[pe * 4 + c] + e * 7 / 16);
    assert(d4[psw * 4 + c] == d[psw * 4 + c] + e * 3 / 16);
    assert(d4[ps * 4 + c] == d[ps * 4 + c] + e * 5 / 16);
    assert(d4[pse * 4 + c] == d[pse * 4 + c] + e * 1 / 16);
    lemma_diffusion_conservation(e);
}

} // verus!
