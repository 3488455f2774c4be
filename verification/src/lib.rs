//! Pixel pipeline that prepares images for fixed-resolution e-reader panels:
//! cover-fit resize with center crop, global contrast stretch, grayscale
//! reduction, and ordered or error-diffusion dithering.

pub mod buffer;
pub mod codec;
pub mod contrast;
pub mod dithering;
pub mod pipeline;
pub mod quantize;
pub mod resize;
pub mod structs;

pub use buffer::{BufModel, PixelBuffer};
pub use pipeline::{batch_process, convert_from_bytes, process_for_kindle};
pub use structs::{ConversionOptions, DitheringAlgorithm, KindleError, KindleModel, ResizingMethod};
