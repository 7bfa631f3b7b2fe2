//! Decoding fetched tile bytes into pixel buffers.
//!
//! The decoding itself is done by the `image` crate behind a trusted
//! wrapper; everything downstream works on [`TileImage`], a plain RGBA8
//! buffer whose size invariant is carried in its well-formedness. Decoding
//! is a pure function of the bytes, so its result is given a name,
//! [`image_decoding`], that the contracts pin the wrapper and
//! [`decode_tile`] to.
use vstd::prelude::*;

use crate::fetch::TileFetchError;

verus! {

#[verifier::external_type_specification]
#[verifier::external_body]
pub struct ExImageError(image::ImageError);

/// What decoding a byte buffer as an image yields: nothing when the bytes
/// are not a decodable image, otherwise the width, the height and the RGBA8
/// pixel content, row major. Decoding depends on the bytes alone, so the
/// result has a name rather than a written-out definition.
pub uninterp spec fn image_decoding(bytes: Seq<u8>) -> Option<(u32, u32, Seq<u8>)>;

/// A decoded tile: RGBA8 pixels, row major, four bytes per pixel.
#[derive(Clone, Debug)]
pub struct TileImage {
    pub width: u32,
    pub height: u32,
    pub rgba: Vec<u8>,
}

impl TileImage {
    /// The buffer holds exactly one four-byte pixel per grid cell.
    pub open spec fn wf(self) -> bool {
        self.rgba@.len() == 4 * (self.width as int) * (self.height as int)
    }
}

/// Relies on image::load_from_memory (format detection and decoding, a
/// pure function of the bytes), DynamicImage::to_rgba8,
/// ImageBuffer::dimensions and ImageBuffer::into_raw: the call returns the
/// named decoding of the bytes, and a decoded RGBA8 buffer holds exactly
/// width times height four-byte pixels.
#[verifier::external_body]
fn decode_rgba(bytes: &[u8]) -> (r: Result<(u32, u32, Vec<u8>), image::ImageError>)
    ensures
        r is Ok <==> image_decoding(bytes@) is Some,
        r is Ok ==> {
            &&& r->Ok_0.0 == image_decoding(bytes@)->Some_0.0
            &&& r->Ok_0.1 == image_decoding(bytes@)->Some_0.1
            &&& r->Ok_0.2@ == image_decoding(bytes@)->Some_0.2
            &&& r->Ok_0.2@.len() == 4 * (r->Ok_0.0 as int) * (r->Ok_0.1 as int)
        },
{
    let img = image::load_from_memory(bytes)?;
    let buf = img.to_rgba8();
    let (w, h) = buf.dimensions();
    Ok((w, h, buf.into_raw()))
}

/// Relies on ImageError's Display implementation for the error text.
#[verifier::external_body]
fn image_error_text(err: &image::ImageError) -> String {
    err.to_string()
}

/// Decodes fetched tile bytes into an RGBA8 pixel buffer: the result is
/// exactly the named decoding of the bytes, successful if and only if the
/// bytes are a decodable image. A failure here is a decode error, distinct
/// from any fetch failure, and is terminal for this request only.
pub fn decode_tile(bytes: &[u8]) -> (r: Result<TileImage, TileFetchError>)
    ensures
        r is Ok <==> image_decoding(bytes@) is Some,
        r is Ok ==> {
            &&& r->Ok_0.width == image_decoding(bytes@)->Some_0.0
            &&& r->Ok_0.height == image_decoding(bytes@)->Some_0.1
            &&& r->Ok_0.rgba@ == image_decoding(bytes@)->Some_0.2
            &&& r->Ok_0.wf()
        },
        r is Err ==> r->Err_0 is Decode,
{
    match decode_rgba(bytes) {
        Ok((width, height, rgba)) => Ok(TileImage { width, height, rgba }),
        Err(e) => Err(TileFetchError::Decode(image_error_text(&e))),
    }
}

} // verus!
