use vstd::prelude::*;
use crate::buffer::{lemma_flat_index, BufModel, PixelBuffer};

verus! {

use vstd::arithmetic::div_mod::{
    lemma_div_is_ordered,
    lemma_div_pos_is_pos,
    lemma_div_nonincreasing,
    lemma_div_multiples_vanish,
    lemma_multiply_divide_lt,
};

/// Cover-fit scaled width: the width after scaling by the larger of the two
/// target-over-source ratios, so the scaled image covers the target canvas.
pub open spec fn scaled_width_spec(w: int, h: int, tw: int, th: int) -> int {
    if tw * h >= th * w {
        tw
    } else {
        w * th / h
    }
}

/// Cover-fit scaled height, the counterpart of `scaled_width_spec`.
pub open spec fn scaled_height_spec(w: int, h: int, tw: int, th: int) -> int {
    if tw * h >= th * w {
        h * tw / w
    } else {
        th
    }
}

/// Cover fit never falls short of the target in either axis.
pub proof fn lemma_cover_fit(w: int, h: int, tw: int, th: int)
    requires
        1 <= w,
        1 <= h,
        1 <= tw,
        1 <= th,
    ensures
        tw <= scaled_width_spec(w, h, tw, th),
        th <= scaled_height_spec(w, h, tw, th),
        scaled_width_spec(w, h, tw, th) <= if tw * h >= th * w { tw } else { w * th },
        scaled_height_spec(w, h, tw, th) <= if tw * h >= th * w { h * tw } else { th },
{
    if tw * h >= th * w {
        lemma_div_is_ordered(th * w, h * tw, w);
        assert(th * w == w * th);
        lemma_div_multiples_vanish(th, w);
        assert(h * tw / w >= th);
        lemma_div_pos_is_pos(h * tw, w);
        lemma_div_nonincreasing(h * tw, w);
    } else {
        lemma_div_is_ordered(tw * h, w * th, h);
        assert(tw * h == h * tw);
        lemma_div_multiples_vanish(tw, h);
        assert(w * th / h >= tw);
        lemma_div_pos_is_pos(w * th, h);
        lemma_div_nonincreasing(w * th, h);
    }
}

/// Computes the cover-fit scaled size for a source and a target canvas,
/// guaranteed at least as large as the target in both axes.
pub fn compute_scaled_dims(width: usize, height: usize, target_width: usize, target_height: usize) -> (r: (
    u64,
    u64,
))
    requires
        1 <= width <= u32::MAX,
        1 <= height <= u32::MAX,
        1 <= target_width <= u32::MAX,
        1 <= target_height <= u32::MAX,
    ensures
        r.0 == scaled_width_spec(width as int, height as int, target_width as int, target_height as int),
        r.1 == scaled_height_spec(width as int, height as int, target_width as int, target_height as int),
        target_width <= r.0,
        target_height <= r.1,
{
    let w = width as u64;
    let h = height as u64;
    let tw = target_width as u64;
    let th = target_height as u64;
    proof {
        assert(tw * h < 0xffff_ffff_ffff_ffff && th * w < 0xffff_ffff_ffff_ffff && w * th
            < 0xffff_ffff_ffff_ffff && h * tw < 0xffff_ffff_ffff_ffff) by (nonlinear_arith)
            requires
                1 <= w <= 0xffff_ffffu64,
                1 <= h <= 0xffff_ffffu64,
                1 <= tw <= 0xffff_ffffu64,
                1 <= th <= 0xffff_ffffu64,
        ;
        lemma_cover_fit(w as int, h as int, tw as int, th as int);
    }
    if tw * h >= th * w {
        (tw, h * tw / w)
    } else {
        (w * th / h, th)
    }
}

/// Centered crop offset for one axis, clamped so that the crop window stays
/// inside the scaled image whatever the rounding did.
pub open spec fn crop_offset_spec(scaled: int, target: int) -> int {
    if scaled >= target {
        (scaled - target) / 2
    } else {
        0
    }
}

/// Sample `i` of the centered crop of `m` to a `tw` by `th` canvas.
pub open spec fn crop_sample(m: BufModel, tw: int, th: int, i: int) -> u8 {
    let p = i / 4;
    let c = i % 4;
    let x = p % tw;
    let y = p / tw;
    m.sample(crop_offset_spec(m.width, tw) + x, crop_offset_spec(m.height, th) + y, c)
}

/// The centered crop of `m` to a `tw` by `th` canvas.
pub open spec fn crop_spec(m: BufModel, tw: int, th: int) -> BufModel {
    BufModel {
        width: tw,
        height: th,
        data: Seq::new((tw * th * 4) as nat, |i: int| crop_sample(m, tw, th, i)),
    }
}

/// The crop offset keeps the whole crop window inside the source axis.
proof fn lemma_crop_offset_in_range(scaled: int, target: int)
    requires
        0 <= target <= scaled,
    ensures
        0 <= crop_offset_spec(scaled, target) <= scaled - target,
{
    lemma_div_pos_is_pos(scaled - target, 2);
    lemma_div_nonincreasing(scaled - target, 2);
}

/// Cuts the centered `target_width` by `target_height` window out of a larger
/// raster.
pub fn crop_center(img: &PixelBuffer, target_width: usize, target_height: usize) -> (r: PixelBuffer)
    requires
        img.wf(),
        target_width <= img@.width,
        target_height <= img@.height,
    ensures
        r.wf(),
        r@ == crop_spec(img@, target_width as int, target_height as int),
        r@.width == target_width,
        r@.height == target_height,
{
    let ghost m = img@;
    let ghost tw = target_width as int;
    let ghost th = target_height as int;
    let w = img.width;
    let h = img.height;
    let ox = (w - target_width) / 2;
    let oy = (h - target_height) / 2;
    proof {
        lemma_crop_offset_in_range(w as int, tw);
        lemma_crop_offset_in_range(h as int, th);
        assert(0 <= target_width * target_height && target_width * target_height <= target_width
            * target_height * 4 && target_width * target_height * 4 <= w * h * 4)
            by (nonlinear_arith)
            requires
                0 <= tw <= w,
                0 <= th <= h,
                tw == target_width,
                th == target_height,
                w == img.width,
                h == img.height,
        ;
    }
    let total = img.data.len();
    proof {
        assert(total == w * h * 4);
    }
    let npix = target_width * target_height;
    let mut data: Vec<u8> = Vec::new();
    let mut p: usize = 0;
    while p < npix
        invariant
            img.wf(),
            m == img@,
            tw == target_width,
            th == target_height,
            w == img.width,
            h == img.height,
            target_width <= w,
            target_height <= h,
            ox == crop_offset_spec(w as int, tw),
            oy == crop_offset_spec(h as int, th),
            ox + target_width <= w,
            oy + target_height <= h,
            npix == target_width * target_height,
            npix * 4 <= w * h * 4,
            w * h * 4 <= usize::MAX,
            p <= npix,
            data@.len() == p * 4,
            forall|j: int| 0 <= j < p * 4 ==> data@[j] == crop_sample(m, tw, th, j),
        decreases npix - p,
    {
        proof {
            assert(tw >= 1) by (nonlinear_arith)
                requires
                    0 <= tw,
                    0 <= th,
                    tw * th > p >= 0,
            ;
            lemma_multiply_divide_lt(p as int, tw, th);
            lemma_div_pos_is_pos(p as int, tw);
        }
        let x = p % target_width;
        let y = p / target_width;
        let sx = ox + x;
        let sy = oy + y;
        proof {
            assert(sx < w && sy < h);
            assert(0 <= sy * w + sx && (sy * w + sx) * 4 + 3 < w * h * 4) by (nonlinear_arith)
                requires
                    0 <= sx < w,
                    0 <= sy < h,
            ;
            assert(w * h * 4 == img@.data.len());
            assert(p * 4 + 4 <= npix * 4) by (nonlinear_arith)
                requires
                    p < npix,
            ;
        }
        let si = (sy * w + sx) * 4;
        data.push(img.data[si]);
        data.push(img.data[si + 1]);
        data.push(img.data[si + 2]);
        data.push(img.data[si + 3]);
        proof {
            lemma_flat_index(p as int, 0);
            lemma_flat_index(p as int, 1);
            lemma_flat_index(p as int, 2);
            lemma_flat_index(p as int, 3);
            assert(data@[p * 4 + 0] == crop_sample(m, tw, th, p * 4 + 0));
            assert(data@[p * 4 + 1] == crop_sample(m, tw, th, p * 4 + 1));
            assert(data@[p * 4 + 2] == crop_sample(m, tw, th, p * 4 + 2));
            assert(data@[p * 4 + 3] == crop_sample(m, tw, th, p * 4 + 3));
            assert(data@.len() == (p + 1) * 4);
        }
        p = p + 1;
    }
    let r = PixelBuffer { width: target_width, height: target_height, data };
    proof {
        assert(r@.data.len() == tw * th * 4);
        assert(r@.data =~= crop_spec(m, tw, th).data);
        assert(r@ =~= crop_spec(m, tw, th));
    }
    r
}

} // verus!
