use vstd::prelude::*;
use base64::Engine;
use crate::bitmap::Bitmap;

verus! {

/// The PNG encoding of an RGBA pixel buffer: a function of the dimensions
/// and the pixels alone.
pub uninterp spec fn png_bytes(width: u32, height: u32, pixels: Seq<u8>) -> Seq<u8>;

/// The padded standard base64 rendering of a byte sequence: a function of
/// the bytes alone.
pub uninterp spec fn base64_chars(bytes: Seq<u8>) -> Seq<char>;

/// Relies on image::open: reads and decodes the image file at `path`; the
/// decoded RGBA buffer holds exactly four bytes per pixel of the decoded
/// dimensions. What comes back depends on what is on disk, so nothing more
/// is claimed of the pixels.
#[verifier::external_body]
pub(crate) fn decode_image_file(path: &String) -> (r: Option<Bitmap>)
    ensures
        r matches Some(b) ==> b.wf(),
{
    match image::open(path) {
        Ok(img) => {
            let rgba = img.to_rgba8();
            let (w, h) = rgba.dimensions();
            Some(Bitmap { width: w, height: h, data: rgba.into_raw() })
        },
        Err(_) => None,
    }
}

/// Relies on RgbaImage::from_raw and ImageBuffer::write_to with the PNG
/// format: encodes the buffer losslessly to PNG bytes, a deterministic
/// function of the dimensions and pixels. With the buffer exactly four
/// bytes per pixel, `from_raw` accepts it, and the png encoder writing to
/// an in-memory cursor refuses only a zero axis, so encoding succeeds for
/// every raster within the format's axis bound.
#[verifier::external_body]
pub(crate) fn encode_png(width: u32, height: u32, data: &Vec<u8>) -> (r: Option<Vec<u8>>)
    requires
        width > 0,
        height > 0,
        data@.len() == width * height * 4,
    ensures
        r matches Some(png) ==> png@ == png_bytes(width, height, data@),
        width <= 0x7FFF_FFFF && height <= 0x7FFF_FFFF ==> r is Some,
{
    let img = match image::RgbaImage::from_raw(width, height, data.clone()) {
        Some(i) => i,
        None => {
            return None;
        },
    };
    let mut cur = std::io::Cursor::new(Vec::new());
    match img.write_to(&mut cur, image::ImageFormat::Png) {
        Ok(()) => Some(cur.into_inner()),
        Err(_) => None,
    }
}

/// Relies on base64's general-purpose STANDARD engine (padded): four output
/// characters for every three input bytes, ASCII only.
#[verifier::external_body]
pub(crate) fn base64_encode(bytes: &Vec<u8>) -> (r: String)
    ensures
        r@ == base64_chars(bytes@),
        r@.len() == 4 * ((bytes@.len() + 2) / 3),
{
    base64::engine::general_purpose::STANDARD.encode(bytes)
}

} // verus!
