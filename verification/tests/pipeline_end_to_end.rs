use kindle_screensaver::structs::{
    ConversionOptions, DitheringAlgorithm, KindleError, KindleModel, ResizingMethod,
};
use kindle_screensaver::{batch_process, convert_from_bytes, process_for_kindle, PixelBuffer};

fn png_bytes_2x2(colors: [[u8; 4]; 4]) -> Vec<u8> {
    let mut imgbuf = image::RgbaImage::new(2, 2);
    imgbuf.put_pixel(0, 0, image::Rgba(colors[0]));
    imgbuf.put_pixel(1, 0, image::Rgba(colors[1]));
    imgbuf.put_pixel(0, 1, image::Rgba(colors[2]));
    imgbuf.put_pixel(1, 1, image::Rgba(colors[3]));
    let mut cursor = std::io::Cursor::new(Vec::new());
    image::DynamicImage::ImageRgba8(imgbuf)
        .write_to(&mut cursor, image::ImageFormat::Png)
        .unwrap();
    cursor.into_inner()
}

fn gradient_buffer(width: usize, height: usize) -> PixelBuffer {
    let mut data = Vec::new();
    for p in 0..width * height {
        data.push((p * 13 % 256) as u8);
        data.push((p * 7 % 256) as u8);
        data.push((p * 3 % 256) as u8);
        data.push(255);
    }
    PixelBuffer { width, height, data }
}

#[test]
fn output_dimensions_match_profile() {
    let img = gradient_buffer(5, 3);
    for model in [KindleModel::Basic, KindleModel::Paperwhite, KindleModel::Colorsoft] {
        for dithering in [
            DitheringAlgorithm::NoDithering,
            DitheringAlgorithm::FloydSteinberg,
            DitheringAlgorithm::Ordered,
        ] {
            let options = ConversionOptions {
                model,
                dithering,
                optimize_contrast: true,
                resizing_method: ResizingMethod::Nearest,
            };
            let out = process_for_kindle(&img, &options).unwrap();
            let (tw, th) = model.dimensions();
            assert_eq!(out.width, tw as usize);
            assert_eq!(out.height, th as usize);
            assert_eq!(out.data.len(), out.width * out.height * 4);
        }
    }
}

#[test]
fn conversion_from_bytes_round_trip() {
    let c00 = [10, 20, 30, 255];
    let c10 = [200, 40, 60, 255];
    let c01 = [0, 255, 0, 255];
    let c11 = [250, 250, 250, 255];
    let png = png_bytes_2x2([c00, c10, c01, c11]);
    let options = ConversionOptions {
        model: KindleModel::Colorsoft,
        dithering: DitheringAlgorithm::NoDithering,
        optimize_contrast: false,
        resizing_method: ResizingMethod::Nearest,
    };
    let out = convert_from_bytes(&png, options).unwrap();
    // The output is a PNG byte stream.
    assert_eq!(&out.as_ref()[0..8], &[0x89, b'P', b'N', b'G', 0x0d, 0x0a, 0x1a, 0x0a]);
    let decoded = image::load_from_memory(out.as_ref()).unwrap().to_rgba8();
    assert_eq!(decoded.dimensions(), (1272, 1696));
    // Nearest-neighbor cover fit of a square 2x2 source: the four quadrants
    // keep the four source colors.
    assert_eq!(decoded.get_pixel(100, 100).0, c00);
    assert_eq!(decoded.get_pixel(1200, 100).0, c10);
    assert_eq!(decoded.get_pixel(100, 1600).0, c01);
    assert_eq!(decoded.get_pixel(1200, 1600).0, c11);
}

#[test]
fn conversion_is_deterministic() {
    let png = png_bytes_2x2([[128, 128, 128, 255]; 4]);
    let options = ConversionOptions {
        model: KindleModel::Paperwhite,
        dithering: DitheringAlgorithm::Ordered,
        optimize_contrast: false,
        resizing_method: ResizingMethod::Triangle,
    };
    let a = convert_from_bytes(&png, options).unwrap();
    let b = convert_from_bytes(&png, options).unwrap();
    assert_eq!(a.as_ref(), b.as_ref());
}

#[test]
fn batch_matches_single_conversions() {
    let img = gradient_buffer(4, 4);
    let options_list = [
        ConversionOptions {
            model: KindleModel::Paperwhite,
            dithering: DitheringAlgorithm::FloydSteinberg,
            optimize_contrast: true,
            resizing_method: ResizingMethod::Nearest,
        },
        ConversionOptions {
            model: KindleModel::Colorsoft,
            dithering: DitheringAlgorithm::Ordered,
            optimize_contrast: false,
            resizing_method: ResizingMethod::Triangle,
        },
        ConversionOptions {
            model: KindleModel::Basic,
            dithering: DitheringAlgorithm::NoDithering,
            optimize_contrast: false,
            resizing_method: ResizingMethod::Lanczos3,
        },
    ];
    let batch = batch_process(&img, &options_list).unwrap();
    assert_eq!(batch.len(), options_list.len());
    for (out, options) in batch.iter().zip(options_list.iter()) {
        let single = process_for_kindle(&img, options).unwrap();
        assert_eq!(out.width, single.width);
        assert_eq!(out.height, single.height);
        assert_eq!(out.data, single.data, "batch output differs from single conversion");
    }
}

#[test]
fn grayscale_devices_get_gray_output() {
    let img = gradient_buffer(3, 3);
    let options = ConversionOptions {
        model: KindleModel::Paperwhite,
        dithering: DitheringAlgorithm::NoDithering,
        optimize_contrast: false,
        resizing_method: ResizingMethod::Nearest,
    };
    let out = process_for_kindle(&img, &options).unwrap();
    for px in out.data.chunks(4) {
        assert_eq!(px[0], px[1]);
        assert_eq!(px[1], px[2]);
    }
}

#[test]
fn ordered_output_of_pipeline_lies_on_levels() {
    let img = gradient_buffer(4, 3);
    let options = ConversionOptions {
        model: KindleModel::Basic,
        dithering: DitheringAlgorithm::Ordered,
        optimize_contrast: true,
        resizing_method: ResizingMethod::Triangle,
    };
    let out = process_for_kindle(&img, &options).unwrap();
    for px in out.data.chunks(4) {
        assert_eq!(px[0] % 17, 0);
    }
}

#[test]
fn malformed_bytes_are_rejected() {
    let options = ConversionOptions::default();
    let err = convert_from_bytes(b"this is not an image", options).unwrap_err();
    assert!(matches!(err, KindleError::ImageError(_)));
}
