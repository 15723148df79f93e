use vstd::prelude::*;
use std::io::Cursor;

verus! {

#[verifier::external_type_specification]
#[verifier::external_body]
pub struct ExImageError(image::ImageError);

/// What the `image` crate's PNG reader yields for a byte stream: width,
/// height and the raw row-major RGBA bytes, or nothing when the bytes do not
/// decode as a PNG. The outcome depends on the bytes alone.
pub uninterp spec fn png_pixels(bytes: Seq<u8>) -> Option<(u32, u32, Seq<u8>)>;

/// The PNG byte stream the `image` crate's writer produces for a raw
/// row-major RGBA buffer of the given size; a function of its arguments alone.
pub uninterp spec fn png_encoding(width: u32, height: u32, data: Seq<u8>) -> Seq<u8>;

/// Relies on image::load_from_memory_with_format and ImageBuffer::to_rgba8:
/// decodes the bytes as PNG into an RGBA8 buffer holding exactly four bytes
/// per pixel.
#[verifier::external_body]
pub(crate) fn decode_png(bytes: &[u8]) -> (r: Result<(u32, u32, Vec<u8>), image::ImageError>)
    ensures
        r is Ok <==> png_pixels(bytes@) is Some,
        r matches Ok((w, h, d)) ==> {
            &&& png_pixels(bytes@) == Some((w, h, d@))
            &&& d@.len() == 4 * ((w as int) * (h as int))
        },
{
    let img = image::load_from_memory_with_format(bytes, image::ImageFormat::Png)?.to_rgba8();
    let (w, h) = img.dimensions();
    Ok((w, h, img.into_raw()))
}

/// Raw RGBA buffers of this size stay within the image crate's default
/// decode allocation limit, which its PNG reader enforces; only such
/// streams are promised to read back.
pub open spec fn fits_decode_limit(width: u32, height: u32) -> bool {
    4 * ((width as int) * (height as int)) <= 0x2000_0000
}

/// Relies on ImageBuffer::write_to with PNG output: encodes a raw RGBA8
/// buffer of the given dimensions as a PNG byte stream. The PNG writer
/// fails exactly on a zero dimension (the buffer length always matches
/// here). Eight-bit RGBA PNG is lossless, so for buffers within the
/// reader's default allocation limit of half a gibibyte, reading the
/// produced stream back yields the same size and the same bytes; beyond
/// that limit the reader refuses, so nothing is claimed there.
#[verifier::external_body]
pub(crate) fn encode_png(width: u32, height: u32, data: &Vec<u8>) -> (r: Result<
    Vec<u8>,
    image::ImageError,
>)
    requires
        data@.len() == 4 * ((width as int) * (height as int)),
    ensures
        r is Ok <==> (width != 0 && height != 0),
        r matches Ok(b) ==> b@ == png_encoding(width, height, data@),
        r matches Ok(b) ==> fits_decode_limit(width, height) ==> png_pixels(b@) == Some(
            (width, height, data@),
        ),
{
    let buf = match image::RgbaImage::from_raw(width, height, data.clone()) {
        Some(b) => b,
        None => {
            return Err(image::ImageError::Parameter(image::error::ParameterError::from_kind(
                image::error::ParameterErrorKind::DimensionMismatch,
            )));
        },
    };
    let mut out: Vec<u8> = Vec::new();
    match buf.write_to(&mut Cursor::new(&mut out), image::ImageOutputFormat::Png) {
        Ok(()) => Ok(out),
        Err(e) => Err(e),
    }
}

} // verus!
