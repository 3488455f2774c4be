use vstd::prelude::*;
use crate::buffer::{lemma_flat_index, BufModel, PixelBuffer};

verus! {

use vstd::arithmetic::div_mod::{
    lemma_div_pos_is_pos,
    lemma_div_is_ordered,
    lemma_div_multiples_vanish,
};

/// Integer luma of a pixel: the Rec. 601 weighted sum of its channels,
/// truncated to a byte.
pub open spec fn luma_spec(r: u8, g: u8, b: u8) -> int {
    (299 * r + 587 * g + 114 * b) / 1000
}

/// Luma of pixel `p` of a raster.
pub open spec fn pixel_luma(m: BufModel, p: int) -> int {
    luma_spec(m.data[p * 4], m.data[p * 4 + 1], m.data[p * 4 + 2])
}

/// Luma stays a byte.
pub proof fn lemma_luma_range(r: u8, g: u8, b: u8)
    ensures
        0 <= luma_spec(r, g, b) <= 255,
{
    lemma_div_pos_is_pos(299 * r + 587 * g + 114 * b, 1000);
    lemma_div_is_ordered(299 * r + 587 * g + 114 * b, 255000, 1000);
    assert(255000int / 1000 == 255);
}

/// Least luma among the first `n` pixels, starting from the scan's seed 255.
pub open spec fn min_luma_upto(m: BufModel, n: int) -> int
    decreases n,
{
    if n <= 0 {
        255
    } else {
        let prev = min_luma_upto(m, n - 1);
        let cur = pixel_luma(m, n - 1);
        if cur < prev {
            cur
        } else {
            prev
        }
    }
}

/// Greatest luma among the first `n` pixels, starting from the scan's seed 0.
pub open spec fn max_luma_upto(m: BufModel, n: int) -> int
    decreases n,
{
    if n <= 0 {
        0
    } else {
        let prev = max_luma_upto(m, n - 1);
        let cur = pixel_luma(m, n - 1);
        if cur > prev {
            cur
        } else {
            prev
        }
    }
}

/// Least observed luma of the whole raster.
pub open spec fn min_luma(m: BufModel) -> int {
    min_luma_upto(m, m.width * m.height)
}

/// Greatest observed luma of the whole raster.
pub open spec fn max_luma(m: BufModel) -> int {
    max_luma_upto(m, m.width * m.height)
}

/// Stretch lookup: `clamp((v - min) * 255 / range, 0, 255)`, where the range
/// falls back to 1 when the image is flat.
pub open spec fn lut_spec(minv: int, maxv: int, v: u8) -> u8 {
    let range = if maxv > minv {
        maxv - minv
    } else {
        1
    };
    let scaled = if v >= minv {
        (v - minv) * 255 / range
    } else {
        0
    };
    if scaled > 255 {
        255u8
    } else {
        scaled as u8
    }
}

/// Sample `i` after the stretch: color channels go through the lookup, alpha
/// is untouched.
pub open spec fn contrast_sample(m: BufModel, i: int) -> u8 {
    if i % 4 == 3 {
        m.data[i]
    } else {
        lut_spec(min_luma(m), max_luma(m), m.data[i])
    }
}

/// The raster after the global contrast stretch.
pub open spec fn contrast_spec(m: BufModel) -> BufModel {
    BufModel {
        width: m.width,
        height: m.height,
        data: Seq::new(m.data.len(), |i: int| contrast_sample(m, i)),
    }
}

/// Sample `i` after grayscale reduction: every color channel carries the
/// pixel's luma, alpha is untouched.
pub open spec fn gray_sample(m: BufModel, i: int) -> u8 {
    if i % 4 == 3 {
        m.data[i]
    } else {
        pixel_luma(m, i / 4) as u8
    }
}

/// The raster collapsed to perceptual grayscale.
pub open spec fn gray_spec(m: BufModel) -> BufModel {
    BufModel {
        width: m.width,
        height: m.height,
        data: Seq::new(m.data.len(), |i: int| gray_sample(m, i)),
    }
}

/// A stretched image maps its lowest observed luma to 0 and its highest to
/// 255; a flat image maps its single luma to 0 and saturates everything
/// above it.
pub proof fn lemma_contrast_stretch_extremes(minv: int, maxv: int)
    requires
        0 <= minv <= 255,
        0 <= maxv <= 255,
    ensures
        minv < maxv ==> lut_spec(minv, maxv, minv as u8) == 0,
        minv < maxv ==> lut_spec(minv, maxv, maxv as u8) == 255,
        minv == maxv ==> lut_spec(minv, maxv, minv as u8) == 0,
        minv == maxv ==> forall|v: u8| minv < v ==> #[trigger] lut_spec(minv, maxv, v) == 255,
{
    if minv < maxv {
        let range = maxv - minv;
        lemma_div_pos_is_pos(0, range);
        assert((maxv - minv) * 255 == range * 255);
        lemma_div_multiples_vanish(255, range);
        assert(lut_spec(minv, maxv, maxv as u8) == 255);
    } else if minv == maxv {
        assert forall|v: u8| minv < v implies #[trigger] lut_spec(minv, maxv, v) == 255 by {
            assert((v - minv) * 255 / 1 == (v - minv) * 255);
            assert((v - minv) * 255 >= 255);
        }
    }
}

/// The luma extremes of any prefix of the scan stay within byte range.
pub proof fn lemma_luma_extremes_range(m: BufModel, n: int)
    ensures
        0 <= min_luma_upto(m, n) <= 255,
        0 <= max_luma_upto(m, n) <= 255,
    decreases n,
{
    if n > 0 {
        lemma_luma_extremes_range(m, n - 1);
        lemma_luma_range(m.data[(n - 1) * 4], m.data[(n - 1) * 4 + 1], m.data[(n - 1) * 4 + 2]);
    }
}

/// The contrast stretch at the image: a color channel that carries the
/// lowest observed luma comes out 0 and one that carries the highest comes
/// out 255; on a flat image every channel at or below the single observed
/// luma comes out 0 and everything above it saturates.
pub proof fn lemma_contrast_extremes_apply(m: BufModel, i: int)
    requires
        0 <= i < m.data.len(),
        i % 4 != 3,
    ensures
        min_luma(m) < max_luma(m) && m.data[i] == min_luma(m) ==> contrast_spec(m).data[i] == 0,
        min_luma(m) < max_luma(m) && m.data[i] == max_luma(m) ==> contrast_spec(m).data[i] == 255,
        min_luma(m) == max_luma(m) && m.data[i] <= min_luma(m) ==> contrast_spec(m).data[i] == 0,
        min_luma(m) == max_luma(m) && m.data[i] > min_luma(m) ==> contrast_spec(m).data[i] == 255,
{
    lemma_luma_extremes_range(m, m.width * m.height);
    let minv = min_luma(m);
    let maxv = max_luma(m);
    lemma_contrast_stretch_extremes(minv, maxv);
    if minv == maxv && m.data[i] < minv {
        assert(lut_spec(minv, maxv, m.data[i]) == 0);
    }
}

/// Scans the raster for its luma extremes: the global, order-independent
/// min/max reduction over every pixel.
pub fn luma_extremes(img: &PixelBuffer) -> (r: (u8, u8))
    requires
        img.wf(),
    ensures
        r.0 == min_luma(img@),
        r.1 == max_luma(img@),
{
    let ghost m = img@;
    let total = img.data.len();
    let npix = total / 4;
    proof {
        assert(total == 4 * (m.width * m.height));
        lemma_div_multiples_vanish(m.width * m.height, 4);
    }
    let mut minv: u8 = 255;
    let mut maxv: u8 = 0;
    let mut p: usize = 0;
    while p < npix
        invariant
            img.wf(),
            m == img@,
            npix == m.width * m.height,
            npix * 4 == img@.data.len(),
            npix * 4 <= usize::MAX,
            p <= npix,
            minv == min_luma_upto(m, p as int),
            maxv == max_luma_upto(m, p as int),
        decreases npix - p,
    {
        proof {
            assert(p * 4 + 2 < npix * 4) by (nonlinear_arith)
                requires
                    p < npix,
            ;
        }
        let r = img.data[p * 4];
        let g = img.data[p * 4 + 1];
        let b = img.data[p * 4 + 2];
        proof {
            lemma_luma_range(r, g, b);
        }
        let l = ((299u32 * r as u32 + 587u32 * g as u32 + 114u32 * b as u32) / 1000u32) as u8;
        if l < minv {
            minv = l;
        }
        if l > maxv {
            maxv = l;
        }
        p = p + 1;
    }
    (minv, maxv)
}

/// Builds the 256-entry stretch lookup table for the observed luma range.
fn build_lut(minv: u8, maxv: u8) -> (lut: Vec<u8>)
    ensures
        lut@.len() == 256,
        forall|j: int| 0 <= j < 256 ==> lut@[j] == lut_spec(minv as int, maxv as int, j as u8),
{
    let range: usize = if maxv > minv {
        (maxv - minv) as usize
    } else {
        1
    };
    let mut lut: Vec<u8> = Vec::new();
    let mut v: usize = 0;
    while v < 256
        invariant
            v <= 256,
            lut@.len() == v,
            range == (if maxv > minv {
                maxv - minv
            } else {
                1
            }),
            forall|j: int| 0 <= j < v ==> lut@[j] == lut_spec(minv as int, maxv as int, j as u8),
        decreases 256 - v,
    {
        let scaled: usize = if v >= minv as usize {
            (v - minv as usize) * 255 / range
        } else {
            0
        };
        let entry: u8 = if scaled > 255 {
            255
        } else {
            scaled as u8
        };
        lut.push(entry);
        v = v + 1;
    }
    lut
}

/// Stretches the raster's tonal range: finds the global luma extremes, then
/// maps every color channel through the resulting lookup table.  Alpha is
/// untouched and the dimensions are kept.
pub fn optimize_contrast_for_eink(img: &PixelBuffer) -> (r: PixelBuffer)
    requires
        img.wf(),
    ensures
        r.wf(),
        r@ == contrast_spec(img@),
        r@.width == img@.width,
        r@.height == img@.height,
{
    let ghost m = img@;
    let (minv, maxv) = luma_extremes(img);
    let lut = build_lut(minv, maxv);
    let total = img.data.len();
    let mut data: Vec<u8> = Vec::new();
    let mut i: usize = 0;
    while i < total
        invariant
            img.wf(),
            m == img@,
            total == img@.data.len(),
            minv == min_luma(m),
            maxv == max_luma(m),
            lut@.len() == 256,
            forall|j: int| 0 <= j < 256 ==> lut@[j] == lut_spec(minv as int, maxv as int, j as u8),
            i <= total,
            data@.len() == i,
            forall|j: int| 0 <= j < i ==> data@[j] == contrast_sample(m, j),
        decreases total - i,
    {
        let s = img.data[i];
        if i % 4 == 3 {
            data.push(s);
        } else {
            data.push(lut[s as usize]);
        }
        i = i + 1;
    }
    let r = PixelBuffer { width: img.width, height: img.height, data };
    proof {
        assert(r@.data =~= contrast_spec(m).data);
        assert(r@ =~= contrast_spec(m));
    }
    r
}

/// Collapses every pixel to its luma, the reduction applied before dithering
/// on achromatic devices.  Alpha is untouched and the dimensions are kept.
pub fn convert_to_grayscale(img: &PixelBuffer) -> (r: PixelBuffer)
    requires
        img.wf(),
    ensures
        r.wf(),
        r@ == gray_spec(img@),
        r@.width == img@.width,
        r@.height == img@.height,
{
    let ghost m = img@;
    let total = img.data.len();
    let npix = total / 4;
    proof {
        assert(total == 4 * (m.width * m.height));
        lemma_div_multiples_vanish(m.width * m.height, 4);
    }
    let mut data: Vec<u8> = Vec::new();
    let mut p: usize = 0;
    while p < npix
        invariant
            img.wf(),
            m == img@,
            npix * 4 == img@.data.len(),
            npix * 4 <= usize::MAX,
            p <= npix,
            data@.len() == p * 4,
            forall|j: int| 0 <= j < p * 4 ==> data@[j] == gray_sample(m, j),
        decreases npix - p,
    {
        proof {
            assert(p * 4 + 3 < npix * 4) by (nonlinear_arith)
                requires
                    p < npix,
            ;
        }
        let r = img.data[p * 4];
        let g = img.data[p * 4 + 1];
        let b = img.data[p * 4 + 2];
        let a = img.data[p * 4 + 3];
        proof {
            lemma_luma_range(r, g, b);
        }
        let l = ((299u32 * r as u32 + 587u32 * g as u32 + 114u32 * b as u32) / 1000u32) as u8;
        data.push(l);
        data.push(l);
        data.push(l);
        data.push(a);
        proof {
            lemma_flat_index(p as int, 0);
            lemma_flat_index(p as int, 1);
            lemma_flat_index(p as int, 2);
            lemma_flat_index(p as int, 3);
            assert(data@[p * 4 + 0] == gray_sample(m, p * 4 + 0));
            assert(data@[p * 4 + 1] == gray_sample(m, p * 4 + 1));
            assert(data@[p * 4 + 2] == gray_sample(m, p * 4 + 2));
            assert(data@[p * 4 + 3] == gray_sample(m, p * 4 + 3));
            assert(data@.len() == (p + 1) * 4);
        }
        p = p + 1;
    }
    let r = PixelBuffer { width: img.width, height: img.height, data };
    proof {
        assert(r@.data =~= gray_spec(m).data);
        assert(r@ =~= gray_spec(m));
    }
    r
}

} // verus!
