use vstd::prelude::*;
use crate::buffer::{BufModel, PixelBuffer};
use crate::codec::{
    bytes_content, decode_ok, decode_rgba, decoded_of, encode_png, encode_png_ok,
    into_shared_bytes, png_of, resize_rgba, resized_of,
};
use crate::contrast::{contrast_spec, convert_to_grayscale, gray_spec, optimize_contrast_for_eink};
use crate::dithering::{
    apply_color_dithering, apply_color_ordered_dithering, apply_floyd_steinberg_dithering,
    apply_ordered_dithering, fs_color_spec, fs_gray_spec, ordered_color_spec, ordered_gray_spec,
};
use crate::resize::{
    compute_scaled_dims, crop_center, crop_spec, scaled_height_spec, scaled_width_spec,
};
use crate::structs::{
    spec_is_color, spec_target_height, spec_target_width, ConversionOptions, DitheringAlgorithm,
    KindleError,
};

verus! {

use vstd::arithmetic::div_mod::lemma_fundamental_div_mod;

/// The raster scaled to cover the device canvas, before cropping.
pub open spec fn scale_stage_spec(m: BufModel, opts: ConversionOptions) -> BufModel {
    let tw = spec_target_width(opts.model) as int;
    let th = spec_target_height(opts.model) as int;
    let sw = scaled_width_spec(m.width, m.height, tw, th);
    let sh = scaled_height_spec(m.width, m.height, tw, th);
    BufModel {
        width: sw,
        height: sh,
        data: resized_of(m.data, m.width, m.height, sw, sh, opts.resizing_method),
    }
}

/// The raster after cover-fit resize and center crop to the device canvas.
pub open spec fn resize_stage_spec(m: BufModel, opts: ConversionOptions) -> BufModel {
    crop_spec(
        scale_stage_spec(m, opts),
        spec_target_width(opts.model) as int,
        spec_target_height(opts.model) as int,
    )
}

/// The whole conversion: resize, the contrast stretch if asked for, grayscale
/// reduction on achromatic devices, then the selected dithering pass.
pub open spec fn pipeline_spec(m: BufModel, opts: ConversionOptions) -> BufModel {
    let resized = resize_stage_spec(m, opts);
    let contrasted = if opts.optimize_contrast {
        contrast_spec(resized)
    } else {
        resized
    };
    if !spec_is_color(opts.model) {
        let gray = gray_spec(contrasted);
        match opts.dithering {
            DitheringAlgorithm::NoDithering => gray,
            DitheringAlgorithm::FloydSteinberg => fs_gray_spec(gray),
            DitheringAlgorithm::Ordered => ordered_gray_spec(gray),
        }
    } else {
        match opts.dithering {
            DitheringAlgorithm::NoDithering => contrasted,
            DitheringAlgorithm::FloydSteinberg => fs_color_spec(contrasted),
            DitheringAlgorithm::Ordered => ordered_color_spec(contrasted),
        }
    }
}

/// Whether the cover-fit scaled raster is representable on this machine:
/// each scaled axis fits the codec's u32 dimensions, the scaled sample count
/// fits in usize, and so does the resampler's intermediate pass of source
/// width by scaled height.
pub open spec fn scaled_fits(m: BufModel, opts: ConversionOptions) -> bool {
    let tw = spec_target_width(opts.model) as int;
    let th = spec_target_height(opts.model) as int;
    let sw = scaled_width_spec(m.width, m.height, tw, th);
    let sh = scaled_height_spec(m.width, m.height, tw, th);
    &&& sw <= u32::MAX
    &&& sh <= u32::MAX
    &&& sw * sh * 4 <= usize::MAX
    &&& m.width * sh * 4 <= usize::MAX
}

/// Converts one decoded raster for one device: always resizes to the exact
/// device canvas, stretches contrast if asked to, reduces achromatic targets
/// to grayscale, then dithers as selected.  Returns `InvalidData` exactly
/// when the cover-fit scale of the source would not be representable.
pub fn process_for_kindle(img: &PixelBuffer, options: &ConversionOptions) -> (r: Result<
    PixelBuffer,
    KindleError,
>)
    requires
        img.wf(),
        1 <= img@.width <= u32::MAX,
        1 <= img@.height <= u32::MAX,
    ensures
        r is Ok <==> scaled_fits(img@, *options),
        r matches Ok(out) ==> out.wf() && out@ == pipeline_spec(img@, *options)
            && out@.width == spec_target_width(options.model) && out@.height == spec_target_height(
            options.model,
        ),
        r matches Err(e) ==> e is InvalidData,
{
    let ghost m = img@;
    let (tw32, th32) = options.model.dimensions();
    let tw = tw32 as usize;
    let th = th32 as usize;
    let (sw64, sh64) = compute_scaled_dims(img.width, img.height, tw, th);
    let ghost sw = scaled_width_spec(m.width, m.height, tw as int, th as int);
    let ghost sh = scaled_height_spec(m.width, m.height, tw as int, th as int);
    if sw64 > u32::MAX as u64 || sh64 > u32::MAX as u64 {
        return Err(KindleError::InvalidData);
    }
    proof {
        assert(sw64 * sh64 <= 0xffff_ffff * 0xffff_ffff) by (nonlinear_arith)
            requires
                0 <= sw64 <= 0xffff_ffffu64,
                0 <= sh64 <= 0xffff_ffffu64,
        ;
    }
    if sw64 * sh64 > (usize::MAX as u64) / 4 {
        proof {
            lemma_fundamental_div_mod(usize::MAX as int, 4);
            assert(sw * sh * 4 > usize::MAX) by (nonlinear_arith)
                requires
                    sw * sh > usize::MAX as int / 4,
                    usize::MAX as int == 4 * (usize::MAX as int / 4) + usize::MAX as int % 4,
                    0 <= usize::MAX as int % 4 < 4,
            ;
        }
        return Err(KindleError::InvalidData);
    }
    proof {
        lemma_fundamental_div_mod(usize::MAX as int, 4);
        assert(sw * sh * 4 <= usize::MAX) by (nonlinear_arith)
            requires
                sw * sh <= usize::MAX as int / 4,
                usize::MAX as int == 4 * (usize::MAX as int / 4) + usize::MAX as int % 4,
                0 <= usize::MAX as int % 4,
        ;
        assert((img.width as u64) * sh64 <= 0xffff_ffff * 0xffff_ffff) by (nonlinear_arith)
            requires
                0 <= img.width as u64 <= 0xffff_ffffu64,
                0 <= sh64 <= 0xffff_ffffu64,
        ;
    }
    if (img.width as u64) * sh64 > (usize::MAX as u64) / 4 {
        proof {
            lemma_fundamental_div_mod(usize::MAX as int, 4);
            assert(m.width * sh * 4 > usize::MAX) by (nonlinear_arith)
                requires
                    m.width * sh > usize::MAX as int / 4,
                    usize::MAX as int == 4 * (usize::MAX as int / 4) + usize::MAX as int % 4,
                    0 <= usize::MAX as int % 4 < 4,
            ;
        }
        return Err(KindleError::InvalidData);
    }
    proof {
        lemma_fundamental_div_mod(usize::MAX as int, 4);
        assert(m.width * sh * 4 <= usize::MAX) by (nonlinear_arith)
            requires
                m.width * sh <= usize::MAX as int / 4,
                usize::MAX as int == 4 * (usize::MAX as int / 4) + usize::MAX as int % 4,
                0 <= usize::MAX as int % 4,
        ;
    }
    let sw_sz = sw64 as usize;
    let sh_sz = sh64 as usize;
    proof {
        assert(sw_sz * sh_sz * 4 <= usize::MAX && img@.width * sh_sz * 4 <= usize::MAX)
            by (nonlinear_arith)
            requires
                sw_sz == sw,
                sh_sz == sh,
                sw * sh * 4 <= usize::MAX,
                m == img@,
                m.width * sh * 4 <= usize::MAX,
        ;
    }
    let scaled = resize_rgba(img, sw_sz, sh_sz, options.resizing_method);
    proof {
        assert(scaled@ =~= scale_stage_spec(m, *options));
    }
    let resized = crop_center(&scaled, tw, th);
    proof {
        assert(resized@ == resize_stage_spec(m, *options));
    }
    let out = if options.optimize_contrast {
        optimize_contrast_for_eink(&resized)
    } else {
        resized
    };
    if !options.model.is_color() {
        let gray = convert_to_grayscale(&out);
        match options.dithering {
            DitheringAlgorithm::NoDithering => Ok(gray),
            DitheringAlgorithm::FloydSteinberg => Ok(apply_floyd_steinberg_dithering(&gray)),
            DitheringAlgorithm::Ordered => Ok(apply_ordered_dithering(&gray)),
        }
    } else {
        match options.dithering {
            DitheringAlgorithm::NoDithering => Ok(out),
            DitheringAlgorithm::FloydSteinberg => Ok(apply_color_dithering(&out)),
            DitheringAlgorithm::Ordered => Ok(apply_color_ordered_dithering(&out)),
        }
    }
}

/// When an in-memory conversion succeeds: the bytes decode, the decoded
/// raster is nonempty, its cover-fit scale is representable, and the PNG
/// encoder accepts the pipeline's result.
pub open spec fn conversion_ok(input: Seq<u8>, options: ConversionOptions) -> bool {
    let m = decoded_of(input);
    &&& decode_ok(input)
    &&& 1 <= m.width
    &&& 1 <= m.height
    &&& scaled_fits(m, options)
    &&& encode_png_ok(
        pipeline_spec(m, options).data,
        spec_target_width(options.model) as int,
        spec_target_height(options.model) as int,
    )
}

/// Decodes an image from bytes, converts it for the selected device, and
/// returns the PNG-encoded result as shared bytes.  Succeeds exactly on
/// `conversion_ok` inputs; bytes that do not decode, or a result the encoder
/// rejects, come back as `ImageError`, and an empty or unrepresentable
/// raster as `InvalidData`.
pub fn convert_from_bytes(input_bytes: &[u8], options: ConversionOptions) -> (r: Result<
    bytes::Bytes,
    KindleError,
>)
    ensures
        r is Ok <==> conversion_ok(input_bytes@, options),
        r matches Ok(out) ==> bytes_content(out) == png_of(
            pipeline_spec(decoded_of(input_bytes@), options).data,
            spec_target_width(options.model) as int,
            spec_target_height(options.model) as int,
        ),
        !decode_ok(input_bytes@) ==> (r matches Err(e) && e is ImageError),
        ({
            let m = decoded_of(input_bytes@);
            decode_ok(input_bytes@) && !(1 <= m.width && 1 <= m.height && scaled_fits(m, options))
                ==> (r matches Err(e) && e is InvalidData)
        }),
        ({
            let m = decoded_of(input_bytes@);
            decode_ok(input_bytes@) && 1 <= m.width && 1 <= m.height && scaled_fits(m, options)
                && !encode_png_ok(
                pipeline_spec(m, options).data,
                spec_target_width(options.model) as int,
                spec_target_height(options.model) as int,
            ) ==> (r matches Err(e) && e is ImageError)
        }),
{
    let decoded = match decode_rgba(input_bytes) {
        Ok(b) => b,
        Err(e) => {
            return Err(e);
        },
    };
    if decoded.width == 0 || decoded.height == 0 {
        return Err(KindleError::InvalidData);
    }
    let processed = match process_for_kindle(&decoded, &options) {
        Ok(b) => b,
        Err(e) => {
            return Err(e);
        },
    };
    let png = match encode_png(&processed) {
        Ok(v) => v,
        Err(e) => {
            return Err(e);
        },
    };
    Ok(into_shared_bytes(png))
}

/// Converts one source raster once per option set.  Every output equals the
/// single-conversion result for its options, so a batch is bit-identical to
/// the corresponding separate conversions of the same source.
pub fn batch_process(img: &PixelBuffer, options_list: &[ConversionOptions]) -> (r: Result<
    Vec<PixelBuffer>,
    KindleError,
>)
    requires
        img.wf(),
        1 <= img@.width <= u32::MAX,
        1 <= img@.height <= u32::MAX,
    ensures
        r is Ok <==> (forall|i: int|
            0 <= i < options_list@.len() ==> scaled_fits(img@, #[trigger] options_list@[i])),
        r matches Ok(outs) ==> outs@.len() == options_list@.len() && forall|i: int|
            0 <= i < outs@.len() ==> (#[trigger] outs@[i])@ == pipeline_spec(
                img@,
                options_list@[i],
            ) && outs@[i].wf(),
{
    let mut outs: Vec<PixelBuffer> = Vec::new();
    let mut i: usize = 0;
    while i < options_list.len()
        invariant
            img.wf(),
            1 <= img@.width <= u32::MAX,
            1 <= img@.height <= u32::MAX,
            i <= options_list@.len(),
            outs@.len() == i,
            forall|j: int|
                0 <= j < i ==> (#[trigger] outs@[j])@ == pipeline_spec(img@, options_list@[j])
                    && outs@[j].wf(),
            forall|j: int| 0 <= j < i ==> scaled_fits(img@, #[trigger] options_list@[j]),
        decreases options_list@.len() - i,
    {
        let opts = options_list[i];
        match process_for_kindle(img, &opts) {
            Ok(out) => {
                outs.push(out);
            },
            Err(_) => {
                return Err(KindleError::InvalidData);
            },
        }
        i = i + 1;
    }
    Ok(outs)
}

} // verus!
