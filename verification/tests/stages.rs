use kindle_screensaver::contrast::{convert_to_grayscale, luma_extremes, optimize_contrast_for_eink};
use kindle_screensaver::resize::{compute_scaled_dims, crop_center};
use kindle_screensaver::structs::{ConversionOptions, DitheringAlgorithm, KindleModel, ResizingMethod};
use kindle_screensaver::PixelBuffer;

#[test]
fn contrast_stretch_maps_extremes() {
    // Two gray pixels, 50 and 200: after the stretch the low one is 0 and the
    // high one is 255.
    let img = PixelBuffer {
        width: 2,
        height: 1,
        data: vec![50, 50, 50, 255, 200, 200, 200, 255],
    };
    let (minv, maxv) = luma_extremes(&img);
    assert_eq!((minv, maxv), (50, 200));
    let out = optimize_contrast_for_eink(&img);
    assert_eq!(out.data, vec![0, 0, 0, 255, 255, 255, 255, 255]);
}

#[test]
fn contrast_stretch_flat_image_maps_to_zero() {
    // A flat image has min == max; the zero-range formula sends the observed
    // value to 0 and alpha stays.
    let img = PixelBuffer {
        width: 2,
        height: 2,
        data: vec![128; 16],
    };
    let (minv, maxv) = luma_extremes(&img);
    assert_eq!((minv, maxv), (128, 128));
    let out = optimize_contrast_for_eink(&img);
    for px in out.data.chunks(4) {
        assert_eq!(&px[0..3], &[0, 0, 0]);
        assert_eq!(px[3], 128);
    }
}

#[test]
fn contrast_lut_exact_midpoint() {
    // min 0, max 200: lut[100] = 100 * 255 / 200 = 127.
    let img = PixelBuffer {
        width: 3,
        height: 1,
        data: vec![0, 0, 0, 255, 100, 100, 100, 255, 200, 200, 200, 255],
    };
    let out = optimize_contrast_for_eink(&img);
    assert_eq!(out.data[4], 127);
}

#[test]
fn grayscale_uses_rec601_weights() {
    // (299*255)/1000 = 76 for pure red, 149 for pure green, 29 for pure blue.
    let img = PixelBuffer {
        width: 3,
        height: 1,
        data: vec![255, 0, 0, 9, 0, 255, 0, 10, 0, 0, 255, 11],
    };
    let out = convert_to_grayscale(&img);
    assert_eq!(out.data, vec![76, 76, 76, 9, 149, 149, 149, 10, 29, 29, 29, 11]);
}

#[test]
fn scaled_dims_cover_extreme_aspect_ratios() {
    // A 1x1000 source against the 1072x1448 canvas: the width ratio 1072
    // dominates.
    let (sw, sh) = compute_scaled_dims(1, 1000, 1072, 1448);
    assert_eq!((sw, sh), (1072, 1_072_000));
    assert!(sw >= 1072 && sh >= 1448);
    // A 1000x1 source: the height ratio 1448 dominates.
    let (sw, sh) = compute_scaled_dims(1000, 1, 1072, 1448);
    assert_eq!((sw, sh), (1_448_000, 1448));
    assert!(sw >= 1072 && sh >= 1448);
    // A square source on the color canvas scales by the height ratio.
    let (sw, sh) = compute_scaled_dims(100, 100, 1272, 1696);
    assert_eq!((sw, sh), (1696, 1696));
}

#[test]
fn crop_center_picks_the_middle_window() {
    // 4x4 with channel 0 equal to the pixel index; the centered 2x2 window
    // starts at offset (1, 1).
    let mut data = Vec::new();
    for i in 0..16u8 {
        data.push(i);
        data.push(0);
        data.push(0);
        data.push(255);
    }
    let img = PixelBuffer { width: 4, height: 4, data };
    let out = crop_center(&img, 2, 2);
    assert_eq!(out.width, 2);
    assert_eq!(out.height, 2);
    let got: Vec<u8> = out.data.chunks(4).map(|px| px[0]).collect();
    assert_eq!(got, vec![5, 6, 9, 10]);
}

#[test]
fn crop_center_degenerate_offsets_are_clamped() {
    // Cropping to the full size copies the raster; no underflow on equal
    // dimensions.
    let img = PixelBuffer { width: 3, height: 2, data: vec![7; 24] };
    let out = crop_center(&img, 3, 2);
    assert_eq!(out.data, img.data);
}

#[test]
fn device_profile_table() {
    assert_eq!(KindleModel::Basic.dimensions(), (1072, 1448));
    assert_eq!(KindleModel::Paperwhite.dimensions(), (1072, 1448));
    assert_eq!(KindleModel::Colorsoft.dimensions(), (1272, 1696));
    assert_eq!(KindleModel::Basic.bit_depth(), 8);
    assert_eq!(KindleModel::Paperwhite.bit_depth(), 8);
    assert_eq!(KindleModel::Colorsoft.bit_depth(), 32);
    assert!(!KindleModel::Basic.is_color());
    assert!(!KindleModel::Paperwhite.is_color());
    assert!(KindleModel::Colorsoft.is_color());
}

#[test]
fn default_options() {
    let opts = ConversionOptions::default();
    assert_eq!(opts.model, KindleModel::Paperwhite);
    assert_eq!(opts.dithering, DitheringAlgorithm::NoDithering);
    assert!(opts.optimize_contrast);
    assert_eq!(opts.resizing_method, ResizingMethod::Nearest);
}
