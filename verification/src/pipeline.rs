//! The preprocessing stage: decode, forced resize, gray conversion,
//! contrast stretch, and JPEG encoding, as one verified function over the
//! image bytes. The decode/resize and encode steps are calls into the
//! `image` library behind trusted wrappers; the contrast stretch between
//! them is verified pixel arithmetic.

use std::io::Cursor;
use vstd::prelude::*;

use crate::contrast::{apply_contrast, stretch_seq, Contrast};

verus! {

/// What decoding the byte string, force-resizing to `w` by `h` and
/// converting to 8-bit gray yields: the row-major pixel buffer, or `None`
/// when the bytes are not a decodable image.
pub uninterp spec fn gray_resized(bytes: Seq<u8>, w: int, h: int) -> Option<Seq<u8>>;

/// The JPEG encoding, at quality 90, of a `w` by `h` 8-bit gray image.
pub uninterp spec fn jpeg_gray90(pixels: Seq<u8>, w: int, h: int) -> Seq<u8>;

/// A preprocessing failure, carrying the image library's message.
#[derive(Debug)]
pub enum ImageFailure {
    /// The input bytes could not be decoded as an image.
    Decode(String),
    /// The result could not be encoded at the target dimensions.
    Encode(String),
}

impl ImageFailure {
    /// The image library's message for this failure.
    pub fn message(&self) -> (r: &String)
        ensures
            *self matches ImageFailure::Decode(m) ==> r == m,
            *self matches ImageFailure::Encode(m) ==> r == m,
    {
        match self {
            ImageFailure::Decode(m) => m,
            ImageFailure::Encode(m) => m,
        }
    }
}

/// Relies on `image::load_from_memory`, `DynamicImage::resize_exact` with
/// the Catmull-Rom filter, `DynamicImage::grayscale` and
/// `DynamicImage::to_luma8`: success is decided by format sniffing on the
/// bytes alone; the resized image has exactly the requested dimensions, so
/// the gray buffer holds one byte per pixel, row-major; and the chain is a
/// pure function of its arguments.
#[verifier::external_body]
fn decode_resize_gray(bytes: &Vec<u8>, w: u32, h: u32) -> (r: Result<Vec<u8>, String>)
    requires
        1 <= w,
        1 <= h,
        w as int * h as int <= 0x4000_0000,
    ensures
        r is Ok <==> gray_resized(bytes@, w as int, h as int) is Some,
        r is Ok ==> r->Ok_0@ == gray_resized(bytes@, w as int, h as int)->Some_0,
        r is Ok ==> r->Ok_0@.len() == w as int * h as int,
{
    let img = match image::load_from_memory(bytes.as_slice()) {
        Ok(i) => i,
        Err(e) => {
            return Err(format!("{}", e));
        },
    };
    let resized = img.resize_exact(w, h, image::imageops::FilterType::CatmullRom);
    Ok(resized.grayscale().to_luma8().into_raw())
}

/// Relies on `image::codecs::jpeg::JpegEncoder::new_with_quality` and
/// `JpegEncoder::encode` at quality 90 on 8-bit gray pixels: writing into
/// a memory buffer fails exactly when a dimension exceeds 65535 (the JPEG
/// header stores them as 16 bits), and the bytes written are a pure
/// function of the pixels and dimensions. A file this encoder wrote is
/// decodable by the same library, so decoding it and resizing to its own
/// dimensions yields a gray buffer again.
#[verifier::external_body]
fn encode_jpeg_gray(pixels: &Vec<u8>, w: u32, h: u32) -> (r: Result<Vec<u8>, String>)
    requires
        1 <= w,
        1 <= h,
        pixels@.len() == w as int * h as int,
    ensures
        r is Ok <==> (w <= 65535 && h <= 65535),
        r is Ok ==> r->Ok_0@ == jpeg_gray90(pixels@, w as int, h as int),
        r is Ok ==> gray_resized(r->Ok_0@, w as int, h as int) is Some,
{
    let mut out: Vec<u8> = Vec::new();
    let mut cur = Cursor::new(&mut out);
    let mut enc = image::codecs::jpeg::JpegEncoder::new_with_quality(&mut cur, 90);
    match enc.encode(pixels.as_slice(), w, h, image::ColorType::L8) {
        Ok(()) => Ok(out),
        Err(e) => Err(format!("{}", e)),
    }
}

/// Preprocessing succeeds exactly when the bytes decode and the target
/// dimensions can be JPEG-encoded.
pub open spec fn preprocess_ok(bytes: Seq<u8>, w: int, h: int) -> bool {
    gray_resized(bytes, w, h) is Some && w <= 65535 && h <= 65535
}

/// The preprocessed file a run produces: the input decoded, force-resized,
/// gray-converted, contrast-stretched by `m` thousandths, and JPEG-encoded
/// at quality 90.
pub open spec fn preprocessed_bytes(bytes: Seq<u8>, w: int, h: int, m: int) -> Seq<u8> {
    jpeg_gray90(stretch_seq(gray_resized(bytes, w, h)->Some_0, m), w, h)
}

/// Everything `preprocess_image` promises of its result: success is
/// decided by the inputs alone, the output bytes are a function of them,
/// and the output is itself a decodable gray image of the same dimensions.
pub open spec fn preprocess_post(
    bytes: Seq<u8>,
    w: int,
    h: int,
    m: int,
    r: Result<Vec<u8>, ImageFailure>,
) -> bool {
    &&& (r is Ok <==> preprocess_ok(bytes, w, h))
    &&& (r is Ok ==> r->Ok_0@ == preprocessed_bytes(bytes, w, h, m))
    &&& (r is Ok ==> gray_resized(r->Ok_0@, w, h) is Some)
    &&& (gray_resized(bytes, w, h) is None ==> r matches Err(ImageFailure::Decode(_)))
    &&& (gray_resized(bytes, w, h) is Some && !(w <= 65535 && h <= 65535) ==> r matches Err(
        ImageFailure::Encode(_),
    ))
}

/// Normalize a source image, in this fixed order: decode by format
/// sniffing, forced resize to `width` by `height` (Catmull-Rom, aspect
/// ratio not preserved), conversion to 8-bit gray, contrast stretch, JPEG
/// encoding at quality 90.
pub fn preprocess_image(bytes: &Vec<u8>, width: u32, height: u32, contrast: &Contrast) -> (r:
    Result<Vec<u8>, ImageFailure>)
    requires
        1 <= width,
        1 <= height,
        width as int * height as int <= 0x4000_0000,
        contrast.wf(),
    ensures
        preprocess_post(bytes@, width as int, height as int, contrast.milli as int, r),
{
    let gray: Vec<u8> = match decode_resize_gray(bytes, width, height) {
        Ok(g) => g,
        Err(e) => {
            return Err(ImageFailure::Decode(e));
        },
    };
    let adjusted: Vec<u8> = apply_contrast(&gray, contrast);
    match encode_jpeg_gray(&adjusted, width, height) {
        Ok(j) => Ok(j),
        Err(e) => Err(ImageFailure::Encode(e)),
    }
}

/// Running the preprocessing stage twice with identical input bytes and
/// options gives the same outcome, and on success byte-identical output
/// files.
pub proof fn lemma_preprocess_deterministic(
    bytes: Seq<u8>,
    w: int,
    h: int,
    m: int,
    r1: Result<Vec<u8>, ImageFailure>,
    r2: Result<Vec<u8>, ImageFailure>,
)
    requires
        preprocess_post(bytes, w, h, m, r1),
        preprocess_post(bytes, w, h, m, r2),
    ensures
        r1 is Ok <==> r2 is Ok,
        r1 is Ok ==> r1->Ok_0@ == r2->Ok_0@,
{
}

/// On a decodable input and encodable dimensions, preprocessing succeeds
/// and its output is a readable gray image of those dimensions.
pub proof fn lemma_preprocess_output_readable(
    bytes: Seq<u8>,
    w: int,
    h: int,
    m: int,
    r: Result<Vec<u8>, ImageFailure>,
)
    requires
        preprocess_post(bytes, w, h, m, r),
        gray_resized(bytes, w, h) is Some,
        w <= 65535,
        h <= 65535,
    ensures
        r is Ok,
        gray_resized(r->Ok_0@, w, h) is Some,
{
}

} // verus!
