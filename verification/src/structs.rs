use vstd::prelude::*;

verus! {

/// A supported reading device.
#[derive(Debug, Clone, Copy, PartialEq, Eq, Structural)]
pub enum KindleModel {
    Basic,
    Paperwhite,
    Colorsoft,
}

/// The dithering pass a conversion applies after depth reduction.
#[derive(Debug, Clone, Copy, PartialEq, Eq, Structural)]
pub enum DitheringAlgorithm {
    NoDithering,
    FloydSteinberg,
    Ordered,
}

/// The sampling filter used by the external resize primitive.
#[derive(Debug, Clone, Copy, PartialEq, Eq, Structural)]
pub enum ResizingMethod {
    Nearest,
    Triangle,
    Lanczos3,
}

/// The image crate's filter selector, carried opaquely to the resize call.
#[verifier::external_type_specification]
#[verifier::external_body]
pub struct ExFilterType(image::imageops::FilterType);

impl ResizingMethod {
    /// Relies on image::imageops::FilterType being a plain selector enum: this
    /// only names the external filter kind that matches the method.
    #[verifier::external_body]
    pub fn to_filter_type(&self) -> image::imageops::FilterType {
        match self {
            ResizingMethod::Nearest => image::imageops::FilterType::Nearest,
            ResizingMethod::Triangle => image::imageops::FilterType::Triangle,
            ResizingMethod::Lanczos3 => image::imageops::FilterType::Lanczos3,
        }
    }
}

/// What a caller asks of a conversion: the device, the dithering pass, the
/// contrast stretch, and the resize filter.
#[derive(Clone, Copy, PartialEq, Eq, Structural)]
pub struct ConversionOptions {
    pub model: KindleModel,
    pub dithering: DitheringAlgorithm,
    pub optimize_contrast: bool,
    pub resizing_method: ResizingMethod,
}

impl ConversionOptions {
    /// The external filter kind selected by these options.
    pub fn filter_type(&self) -> image::imageops::FilterType {
        self.resizing_method.to_filter_type()
    }
}

impl Default for ConversionOptions {
    /// Paperwhite output with contrast stretch, no dithering, nearest filter.
    fn default() -> (r: Self)
        ensures
            r == (ConversionOptions {
                model: KindleModel::Paperwhite,
                dithering: DitheringAlgorithm::NoDithering,
                optimize_contrast: true,
                resizing_method: ResizingMethod::Nearest,
            }),
    {
        ConversionOptions {
            model: KindleModel::Paperwhite,
            dithering: DitheringAlgorithm::NoDithering,
            optimize_contrast: true,
            resizing_method: ResizingMethod::Nearest,
        }
    }
}

/// Target canvas width of a device profile.
pub open spec fn spec_target_width(m: KindleModel) -> u32 {
    match m {
        KindleModel::Basic => 1072u32,
        KindleModel::Paperwhite => 1072u32,
        KindleModel::Colorsoft => 1272u32,
    }
}

/// Target canvas height of a device profile.
pub open spec fn spec_target_height(m: KindleModel) -> u32 {
    match m {
        KindleModel::Basic => 1448u32,
        KindleModel::Paperwhite => 1448u32,
        KindleModel::Colorsoft => 1696u32,
    }
}

/// Panel bit depth of a device profile.
pub open spec fn spec_bit_depth(m: KindleModel) -> u8 {
    match m {
        KindleModel::Basic => 8u8,
        KindleModel::Paperwhite => 8u8,
        KindleModel::Colorsoft => 32u8,
    }
}

/// Whether a device renders color.
pub open spec fn spec_is_color(m: KindleModel) -> bool {
    match m {
        KindleModel::Colorsoft => true,
        _ => false,
    }
}

impl KindleModel {
    /// Target canvas size of the device, width then height.
    pub fn dimensions(&self) -> (r: (u32, u32))
        ensures
            r.0 == spec_target_width(*self),
            r.1 == spec_target_height(*self),
    {
        match self {
            KindleModel::Basic => (1072, 1448),
            KindleModel::Paperwhite => (1072, 1448),
            KindleModel::Colorsoft => (1272, 1696),
        }
    }

    /// Panel bit depth of the device.
    pub fn bit_depth(&self) -> (r: u8)
        ensures
            r == spec_bit_depth(*self),
    {
        match self {
            KindleModel::Basic => 8,
            KindleModel::Paperwhite => 8,
            KindleModel::Colorsoft => 32,
        }
    }

    /// Whether the device renders color; only the Colorsoft does.
    pub fn is_color(&self) -> (r: bool)
        ensures
            r == spec_is_color(*self),
    {
        match self {
            KindleModel::Colorsoft => true,
            _ => false,
        }
    }
}

/// Why a conversion failed.
#[derive(Debug)]
pub enum KindleError {
    /// The external codec rejected the input or could not encode the output.
    ImageError(String),
    /// Reading or writing the underlying storage failed.
    IoError(String),
    /// The input does not carry a recognized image format.
    UnsupportedFormat,
    /// The input does not resolve to a usable image.
    InvalidData,
}

} // verus!
