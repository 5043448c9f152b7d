use vstd::prelude::*;
use crate::img_cache::ImageMetadata;
use image::ImageDecoder;
use image::metadata::Orientation as ImageOrientation;

verus! {

/// The width and height that the `image` crate reads from the header of an encoded image,
/// once `image::guess_format` has picked one of the crate's built-in formats from the
/// leading bytes; none when no format is recognised or the header cannot be read.
pub uninterp spec fn spec_header_dimensions(bytes: Seq<u8>) -> Option<(u32, u32)>;

/// Calls `image::guess_format`, then `image::ImageReader::with_format(..)` with that built-in
/// format and `into_dimensions`. A built-in format given by hand bypasses the format-guessing
/// and decoding hooks that code in the process may register, so the result depends on the
/// bytes alone; it is named by `spec_header_dimensions`.
#[verifier::external_body]
fn header_dimensions(bytes: &[u8]) -> (r: Option<(u32, u32)>)
    ensures
        r == spec_header_dimensions(bytes@),
{
    let format = image::guess_format(bytes).ok()?;
    image::ImageReader::with_format(std::io::Cursor::new(bytes), format).into_dimensions().ok()
}

/// The image decoded by `image::load_from_memory_with_format`, in the built-in format that
/// `image::guess_format` picks from the leading bytes, and turned into RGBA8: its pixel
/// bytes, row by row, then its width and height; none when the bytes do not decode.
pub uninterp spec fn spec_decode_rgba(bytes: Seq<u8>) -> Option<(Seq<u8>, u32, u32)>;

/// Calls `image::guess_format`, then `image::load_from_memory_with_format` with that built-in
/// format (which bypasses the hooks that code in the process may register), then `to_rgba8`,
/// `dimensions` and `into_raw`; the result is named by `spec_decode_rgba`. An RGBA8 buffer
/// holds four bytes for each of its `w * h` pixels.
#[verifier::external_body]
fn decode_rgba(bytes: &[u8]) -> (r: Option<(Vec<u8>, u32, u32)>)
    ensures
        match r {
            Some((px, w, h)) => spec_decode_rgba(bytes@) == Some((px@, w, h)) && px@.len() == 4 * w * h,
            None => spec_decode_rgba(bytes@) is None,
        },
{
    let format = image::guess_format(bytes).ok()?;
    match image::load_from_memory_with_format(bytes, format) {
        Ok(img) => {
            let rgba = img.to_rgba8();
            let (w, h) = rgba.dimensions();
            Some((rgba.into_raw(), w, h))
        },
        Err(_) => None,
    }
}

/// The metadata of an encoded image: the dimensions from its header, or zero by zero when
/// the header cannot be read, and the size of its file.
pub open spec fn spec_metadata_from_bytes(bytes: Seq<u8>, file_size: u64) -> ImageMetadata {
    match spec_header_dimensions(bytes) {
        Some((w, h)) => ImageMetadata { width: w, height: h, file_size },
        None => ImageMetadata { width: 0, height: 0, file_size },
    }
}

/// Reads the metadata of an encoded image without decoding its pixels.
pub fn metadata_from_bytes(bytes: &[u8], file_size: u64) -> (r: ImageMetadata)
    ensures
        r == spec_metadata_from_bytes(bytes@, file_size),
{
    match header_dimensions(bytes) {
        Some((w, h)) => ImageMetadata::new(w, h, file_size),
        None => ImageMetadata::new(0, 0, file_size),
    }
}

/// The width of an encoded image once decoded, zero when it does not decode.
pub fn decoded_width(bytes: &[u8]) -> (r: u32)
    ensures
        r == match spec_decode_rgba(bytes@) {
            Some((_, w, _)) => w,
            None => 0,
        },
{
    match decode_rgba(bytes) {
        Some((_, w, _)) => w,
        None => 0,
    }
}

/// The height of an encoded image once decoded, zero when it does not decode.
pub fn decoded_height(bytes: &[u8]) -> (r: u32)
    ensures
        r == match spec_decode_rgba(bytes@) {
            Some((_, _, h)) => h,
            None => 0,
        },
{
    match decode_rgba(bytes) {
        Some((_, _, h)) => h,
        None => 0,
    }
}

/// The picture shown while the slider moves: the encoded bytes, and when they decode, the
/// RGBA8 pixels and the dimensions.
pub struct SliderFrame {
    pub bytes: Vec<u8>,
    pub rgba: Option<Vec<u8>>,
    pub dimensions: Option<(u32, u32)>,
}

/// Decodes the picture shown while the slider moves; the bytes are kept whether or not
/// they decode.
pub fn slider_frame(bytes: Vec<u8>) -> (r: SliderFrame)
    ensures
        r.bytes@ == bytes@,
        match spec_decode_rgba(bytes@) {
            Some((px, w, h)) => r.rgba matches Some(v) && v@ == px && v@.len() == 4 * w * h
                && r.dimensions == Some((w, h)),
            None => r.rgba is None && r.dimensions is None,
        },
{
    match decode_rgba(bytes.as_slice()) {
        Some((px, w, h)) => SliderFrame { bytes, rgba: Some(px), dimensions: Some((w, h)) },
        None => SliderFrame { bytes, rgba: None, dimensions: None },
    }
}

/// How an image is to be turned for display, as its EXIF data says.
#[derive(Debug, Clone, Copy, PartialEq, Eq, Structural)]
pub enum ExifOrientation {
    NoTransforms,
    Rotate90,
    Rotate180,
    Rotate270,
    FlipHorizontal,
    FlipVertical,
    Rotate90FlipH,
    Rotate270FlipH,
}

/// The orientation and the stored width and height that the `image` crate's decoder reports
/// for an encoded image in the built-in format that `image::guess_format` picks (no
/// transform when it reports none); none when no format is recognised or no decoder can be
/// made for the bytes.
pub uninterp spec fn spec_decoder_orientation(bytes: Seq<u8>) -> Option<(ExifOrientation, u32, u32)>;

/// Calls `image::guess_format`, `image::ImageReader::with_format(..)` with that built-in
/// format (bypassing the hooks that code in the process may register), `into_decoder`, then
/// the decoder's `orientation` and `dimensions`; the result is named by
/// `spec_decoder_orientation`.
#[verifier::external_body]
fn decoder_orientation(bytes: &[u8]) -> (r: Option<(ExifOrientation, u32, u32)>)
    ensures
        r == spec_decoder_orientation(bytes@),
{
    let format = image::guess_format(bytes).ok()?;
    let mut decoder = image::ImageReader::with_format(std::io::Cursor::new(bytes), format).into_decoder().ok()?;
    let o = match decoder.orientation().unwrap_or(ImageOrientation::NoTransforms) {
        ImageOrientation::NoTransforms => ExifOrientation::NoTransforms,
        ImageOrientation::Rotate90 => ExifOrientation::Rotate90,
        ImageOrientation::Rotate180 => ExifOrientation::Rotate180,
        ImageOrientation::Rotate270 => ExifOrientation::Rotate270,
        ImageOrientation::FlipHorizontal => ExifOrientation::FlipHorizontal,
        ImageOrientation::FlipVertical => ExifOrientation::FlipVertical,
        ImageOrientation::Rotate90FlipH => ExifOrientation::Rotate90FlipH,
        ImageOrientation::Rotate270FlipH => ExifOrientation::Rotate270FlipH,
    };
    let (w, h) = decoder.dimensions();
    Some((o, w, h))
}

/// The orientation turns the image a quarter, so width and height trade places.
pub open spec fn swaps_dimensions(o: ExifOrientation) -> bool {
    o == ExifOrientation::Rotate90 || o == ExifOrientation::Rotate270 || o == ExifOrientation::Rotate90FlipH
        || o == ExifOrientation::Rotate270FlipH
}

/// The dimensions an image shows with once turned as its EXIF data says: the decoder's,
/// traded for a quarter turn; without a decoder those of the header, or zero by zero.
pub open spec fn spec_orientation_aware_dimensions(bytes: Seq<u8>) -> (u32, u32) {
    match spec_decoder_orientation(bytes) {
        Some((o, w, h)) => if swaps_dimensions(o) { (h, w) } else { (w, h) },
        None => match spec_header_dimensions(bytes) {
            Some(d) => d,
            None => (0, 0),
        },
    }
}

/// The dimensions an image shows with once turned as its EXIF data says.
pub fn get_orientation_aware_dimensions(bytes: &[u8]) -> (r: (u32, u32))
    ensures
        r == spec_orientation_aware_dimensions(bytes@),
{
    match decoder_orientation(bytes) {
        Some((o, w, h)) => match o {
            ExifOrientation::Rotate90 | ExifOrientation::Rotate270 | ExifOrientation::Rotate90FlipH
            | ExifOrientation::Rotate270FlipH => (h, w),
            _ => (w, h),
        },
        None => match header_dimensions(bytes) {
            Some(d) => d,
            None => (0, 0),
        },
    }
}

} // verus!
