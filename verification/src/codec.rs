use vstd::prelude::*;
use crate::buffer::{BufModel, PixelBuffer};
use crate::structs::{KindleError, ResizingMethod};

verus! {

/// The raster decoded from an image byte stream; decoding is a pure function
/// of the bytes.
pub uninterp spec fn decoded_of(input: Seq<u8>) -> BufModel;

/// Whether an image byte stream decodes at all; like the decoded raster, a
/// pure function of the bytes.
pub uninterp spec fn decode_ok(input: Seq<u8>) -> bool;

/// Whether the PNG encoder accepts a raster of these samples and size; a
/// pure function of its arguments.
pub uninterp spec fn encode_png_ok(data: Seq<u8>, width: int, height: int) -> bool;

/// The samples produced by resampling a raster to the given size with the
/// given filter; a pure function of the source and the request.
pub uninterp spec fn resized_of(
    data: Seq<u8>,
    width: int,
    height: int,
    new_width: int,
    new_height: int,
    method: ResizingMethod,
) -> Seq<u8>;

/// The PNG encoding of a raster; a pure function of its samples and size.
pub uninterp spec fn png_of(data: Seq<u8>, width: int, height: int) -> Seq<u8>;

/// The bytes a shared byte handle carries.
pub uninterp spec fn bytes_content(b: bytes::Bytes) -> Seq<u8>;

/// A shared handle over encoded output bytes.
#[verifier::external_type_specification]
#[verifier::external_body]
pub struct ExBytes(bytes::Bytes);

/// Relies on image::load_from_memory and DynamicImage::to_rgba8: decoding
/// succeeds or fails as a pure function of the bytes; a decoded raster is
/// RGBA with one byte per channel and its dimensions fit in u32.
#[verifier::external_body]
pub(crate) fn decode_rgba(input: &[u8]) -> (r: Result<PixelBuffer, KindleError>)
    ensures
        r is Ok <==> decode_ok(input@),
        r matches Ok(b) ==> b.wf() && b@ == decoded_of(input@) && b@.width <= u32::MAX
            && b@.height <= u32::MAX,
        r matches Err(e) ==> e is ImageError,
{
    match image::load_from_memory(input) {
        Ok(img) => {
            let rgba = img.to_rgba8();
            let (w, h) = rgba.dimensions();
            Ok(PixelBuffer { width: w as usize, height: h as usize, data: rgba.into_raw() })
        },
        Err(e) => Err(KindleError::ImageError(e.to_string())),
    }
}

/// Relies on image::DynamicImage::resize_exact: the result has exactly the
/// requested dimensions, stays RGBA with one byte per channel, and is a pure
/// function of the source samples, sizes and filter.
#[verifier::external_body]
pub(crate) fn resize_rgba(img: &PixelBuffer, new_width: usize, new_height: usize, method: ResizingMethod) -> (r:
    PixelBuffer)
    requires
        img.wf(),
        1 <= img@.width <= u32::MAX,
        1 <= img@.height <= u32::MAX,
        1 <= new_width <= u32::MAX,
        1 <= new_height <= u32::MAX,
        new_width * new_height * 4 <= usize::MAX,
        img@.width * new_height * 4 <= usize::MAX,
    ensures
        r.wf(),
        r@.width == new_width,
        r@.height == new_height,
        r@.data == resized_of(
            img@.data,
            img@.width,
            img@.height,
            new_width as int,
            new_height as int,
            method,
        ),
{
    let src = image::RgbaImage::from_raw(img.width as u32, img.height as u32, img.data.clone())
        .unwrap();
    let out = image::DynamicImage::ImageRgba8(src)
        .resize_exact(new_width as u32, new_height as u32, method.to_filter_type())
        .to_rgba8();
    PixelBuffer { width: new_width, height: new_height, data: out.into_raw() }
}

/// Relies on image::DynamicImage::write_to with ImageFormat::Png: encoding
/// succeeds or fails, and yields its bytes, as a pure function of the
/// raster's samples and size.
#[verifier::external_body]
pub(crate) fn encode_png(img: &PixelBuffer) -> (r: Result<Vec<u8>, KindleError>)
    requires
        img.wf(),
        1 <= img@.width <= u32::MAX,
        1 <= img@.height <= u32::MAX,
    ensures
        r is Ok <==> encode_png_ok(img@.data, img@.width, img@.height),
        r matches Ok(v) ==> v@ == png_of(img@.data, img@.width, img@.height),
        r matches Err(e) ==> e is ImageError,
{
    let src = image::RgbaImage::from_raw(img.width as u32, img.height as u32, img.data.clone())
        .unwrap();
    let mut cursor = std::io::Cursor::new(Vec::new());
    match image::DynamicImage::ImageRgba8(src).write_to(&mut cursor, image::ImageFormat::Png) {
        Ok(()) => Ok(cursor.into_inner()),
        Err(e) => Err(KindleError::ImageError(e.to_string())),
    }
}

/// Relies on bytes::Bytes::from(Vec<u8>): the handle carries exactly the
/// vector's bytes.
#[verifier::external_body]
pub(crate) fn into_shared_bytes(v: Vec<u8>) -> (b: bytes::Bytes)
    ensures
        bytes_content(b) == v@,
{
    bytes::Bytes::from(v)
}

} // verus!
