use kindle_screensaver::dithering::{
    apply_color_dithering, apply_color_ordered_dithering, apply_floyd_steinberg_dithering,
    apply_ordered_dithering, apply_threshold, bayer_threshold,
};
use kindle_screensaver::PixelBuffer;

fn gray_image(width: usize, height: usize, values: &[u8], alpha: u8) -> PixelBuffer {
    assert_eq!(values.len(), width * height);
    let mut data = Vec::new();
    for &v in values {
        data.push(v);
        data.push(v);
        data.push(v);
        data.push(alpha);
    }
    PixelBuffer { width, height, data }
}

fn channel0(buf: &PixelBuffer) -> Vec<u8> {
    buf.data.chunks(4).map(|px| px[0]).collect()
}

#[test]
fn quantize_exact_values() {
    // 16 levels: bucket 200*16/256 = 12, upper level 12*255/15 = 204.
    assert_eq!(apply_threshold(200, 127, 16), 204);
    // Below threshold: bucket 100*16/256 = 6, lower level 5*255/15 = 85.
    assert_eq!(apply_threshold(100, 127, 16), 85);
    // Bucket zero below threshold maps to 0.
    assert_eq!(apply_threshold(5, 127, 16), 0);
    // Just over the threshold takes the upper level: bucket 8 -> 136.
    assert_eq!(apply_threshold(128, 127, 16), 136);
    // 6 levels: bucket 128*6/256 = 3, upper 3*255/5 = 153, lower 2*255/5 = 102.
    assert_eq!(apply_threshold(128, 127, 6), 153);
    assert_eq!(apply_threshold(128, 191, 6), 102);
    // Fewer than two levels keeps the sample.
    assert_eq!(apply_threshold(77, 10, 1), 77);
    assert_eq!(apply_threshold(77, 10, 0), 77);
}

#[test]
fn quantize_monotonic_in_value() {
    for t in [0u8, 63, 127, 200, 255] {
        for levels in [6usize, 16] {
            let mut prev = apply_threshold(0, t, levels);
            for v in 1..=255u8 {
                let q = apply_threshold(v, t, levels);
                assert!(q >= prev, "not monotonic at v={v} t={t} levels={levels}");
                prev = q;
            }
        }
    }
}

#[test]
fn quantize_outputs_lie_on_levels() {
    for t in [0u8, 127, 255] {
        for v in 0..=255u8 {
            assert_eq!(apply_threshold(v, t, 16) % 17, 0);
            assert_eq!(apply_threshold(v, t, 6) % 51, 0);
        }
    }
}

#[test]
fn quantize_fixed_point_above_threshold_or_zero() {
    for t in [0u8, 63, 127, 200] {
        for v in 0..=255u8 {
            let q = apply_threshold(v, t, 16);
            if q > t || q == 0 {
                assert_eq!(apply_threshold(q, t, 16), q);
            }
        }
    }
    // A positive output at or below the threshold is not a fixed point:
    // quantize(100, 127, 16) = 85, but quantize(85, 127, 16) = 68.
    assert_eq!(apply_threshold(100, 127, 16), 85);
    assert_eq!(apply_threshold(85, 127, 16), 68);
}

#[test]
fn bayer_thresholds_match_matrix() {
    // entry * 255 / 16 for the first row: 0, 8, 2, 10.
    assert_eq!(bayer_threshold(0, 0), 0);
    assert_eq!(bayer_threshold(1, 0), 127);
    assert_eq!(bayer_threshold(2, 0), 31);
    assert_eq!(bayer_threshold(3, 0), 159);
    // second row: 12, 4, 14, 6.
    assert_eq!(bayer_threshold(0, 1), 191);
    assert_eq!(bayer_threshold(1, 1), 63);
    // wraps mod 4 in both axes.
    assert_eq!(bayer_threshold(4, 4), bayer_threshold(0, 0));
    assert_eq!(bayer_threshold(5, 9), bayer_threshold(1, 1));
}

#[test]
fn ordered_dithering_flat_two_by_two() {
    // A flat 2x2 gray image, every sample 128: thresholds 0, 127, 191, 63.
    // Above the threshold bucket 8 gives 136; below it gives 119.
    let img = gray_image(2, 2, &[128, 128, 128, 128], 128);
    let out = apply_ordered_dithering(&img);
    assert_eq!(out.width, 2);
    assert_eq!(out.height, 2);
    assert_eq!(channel0(&out), vec![136, 136, 119, 136]);
    // All three color channels carry the same value; alpha is untouched.
    for px in out.data.chunks(4) {
        assert_eq!(px[0], px[1]);
        assert_eq!(px[1], px[2]);
        assert_eq!(px[3], 128);
    }
    // Deterministic: a second run is bit-identical.
    let again = apply_ordered_dithering(&img);
    assert_eq!(out.data, again.data);
}

#[test]
fn ordered_dithering_outputs_on_levels() {
    let values: Vec<u8> = (0..64).map(|i| (i * 4) as u8).collect();
    let img = gray_image(8, 8, &values, 255);
    let out = apply_ordered_dithering(&img);
    for px in out.data.chunks(4) {
        assert_eq!(px[0] % 17, 0);
        assert_eq!(px[3], 255);
    }
}

#[test]
fn ordered_color_dithering_single_pixel() {
    // Threshold at (0,0) is 0, so every nonzero channel takes its upper level.
    let img = PixelBuffer { width: 1, height: 1, data: vec![200, 100, 50, 255] };
    let out = apply_color_ordered_dithering(&img);
    assert_eq!(out.data, vec![204, 102, 51, 255]);
}

#[test]
fn ordered_color_outputs_on_levels() {
    let mut data = Vec::new();
    for i in 0..32u32 {
        data.push((i * 8) as u8);
        data.push((i * 5) as u8);
        data.push((i * 3) as u8);
        data.push(255);
    }
    let img = PixelBuffer { width: 8, height: 4, data };
    let out = apply_color_ordered_dithering(&img);
    for px in out.data.chunks(4) {
        assert_eq!(px[0] % 51, 0);
        assert_eq!(px[1] % 51, 0);
        assert_eq!(px[2] % 51, 0);
        assert_eq!(px[3], 255);
    }
}

#[test]
fn floyd_steinberg_single_interior_pixel() {
    // 3x2: only (1,0) is visited. 100 floors to 96, the residual 4 spreads
    // 7/16 east, 3/16 southwest, 5/16 south, 1/16 southeast.
    let img = gray_image(3, 2, &[10, 100, 20, 30, 40, 50], 255);
    let out = apply_floyd_steinberg_dithering(&img);
    assert_eq!(channel0(&out), vec![10, 96, 21, 30, 41, 50]);
    for px in out.data.chunks(4) {
        assert_eq!(px[0], px[1]);
        assert_eq!(px[1], px[2]);
        assert_eq!(px[3], 255);
    }
}

#[test]
fn floyd_steinberg_borders_are_never_quantized() {
    // Interior samples are multiples of 16, so every residual is zero and no
    // error reaches the edges.  The borders hold values a quantization pass
    // would change; they must come through exactly, because edge pixels are
    // excluded as diffusion sources.
    let values: Vec<u8> = (0..25usize)
        .map(|i| {
            let x = i % 5;
            let y = i / 5;
            if x == 0 || x == 4 || y == 4 { 13 } else { 16 * ((i % 3) as u8 + 1) }
        })
        .collect();
    let img = gray_image(5, 5, &values, 255);
    let out = apply_floyd_steinberg_dithering(&img);
    let got = channel0(&out);
    assert_eq!(got, values, "zero residuals must leave the raster unchanged");
}

#[test]
fn floyd_steinberg_tiny_images_passthrough() {
    for (w, h) in [(1usize, 1usize), (2, 5), (5, 1), (2, 2)] {
        let values: Vec<u8> = (0..w * h).map(|i| (i * 7) as u8).collect();
        let img = gray_image(w, h, &values, 200);
        let out = apply_floyd_steinberg_dithering(&img);
        assert_eq!(out.data, img.data);
        let color = apply_color_dithering(&img);
        assert_eq!(color.data, img.data);
    }
}

#[test]
fn color_diffusion_conserves_residual_multiple_of_sixteen() {
    // 3x2: only (1,0) is visited. Channel 0 there is 58, flooring to 42
    // leaves a residual of 16, which the 7+3+5+1 sixteenths conserve exactly
    // when nothing saturates.
    let mut data = vec![0u8; 3 * 2 * 4];
    data[4] = 58; // channel 0 of pixel (1, 0)
    let img = PixelBuffer { width: 3, height: 2, data };
    let before: u32 = img.data.chunks(4).map(|px| px[0] as u32).sum();
    let out = apply_color_dithering(&img);
    let after: u32 = out.data.chunks(4).map(|px| px[0] as u32).sum();
    assert_eq!(before, 58);
    assert_eq!(after, 58, "residual of 16 must be conserved exactly");
    let got: Vec<u8> = out.data.chunks(4).map(|px| px[0]).collect();
    // east +7, southwest +3, south +5, southeast +1.
    assert_eq!(got, vec![0, 42, 7, 3, 5, 1]);
}

#[test]
fn color_diffusion_truncation_loses_at_most_three_sixteenths() {
    // Residual 5 spreads 2+0+1+0: three sixteenths are lost to truncation.
    let mut data = vec![0u8; 3 * 2 * 4];
    data[4] = 47; // floors to 42, residual 5
    let img = PixelBuffer { width: 3, height: 2, data };
    let out = apply_color_dithering(&img);
    let got: Vec<u8> = out.data.chunks(4).map(|px| px[0]).collect();
    assert_eq!(got, vec![0, 42, 2, 0, 1, 0]);
    let distributed: u32 = got.iter().map(|&v| v as u32).sum::<u32>() - 42;
    assert!(distributed <= 5 && 5 - distributed <= 3);
}
