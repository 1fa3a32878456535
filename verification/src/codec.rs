//! Image compression and text-safe encoding, done by the `image` and
//! `base64` crates. Nothing in this file is proved: the contracts say what
//! those crates are taken to do.

use base64::Engine;
use vstd::prelude::*;

verus! {

/// Whether a buffer of `len` bytes holds `width` times `height` pixels of
/// four bytes each.
pub open spec fn rgba_fits(len: nat, width: u32, height: u32) -> bool {
    4 * width * height <= len
}

/// The dimensions that a JPEG image can have: 1 to 65535 each way.
pub open spec fn jpeg_dimensions(width: u32, height: u32) -> bool {
    1 <= width <= 0xFFFF && 1 <= height <= 0xFFFF
}

/// The baseline JPEG file that the `image` crate's encoder writes for the
/// RGBA pixels `pixels` of a `width` by `height` image at the given
/// quality, or `None` where it writes none.
pub uninterp spec fn jpeg_encoding(pixels: Seq<u8>, width: u32, height: u32, quality: u8) -> Option<
    Seq<u8>,
>;

/// The bytes that an optional byte vector holds.
pub open spec fn bytes_of(v: Option<Vec<u8>>) -> Option<Seq<u8>> {
    match v {
        Some(bytes) => Some(bytes@),
        None => None,
    }
}

/// Compresses RGBA pixels to JPEG.
///
/// Calls `image::RgbaImage::from_raw`, `JpegEncoder::new_with_quality` and
/// `DynamicImage::write_with_encoder`, which drops the alpha channel and
/// encodes the rest into a buffer in memory. The result is a function of
/// the arguments alone and is named `jpeg_encoding`; nothing is claimed
/// about when it is `Some`. The caller has made sure that the buffer holds
/// the pixels and that the encoder takes the dimensions.
#[verifier::external_body]
pub(crate) fn jpeg_from_rgba(pixels: Vec<u8>, width: u32, height: u32, quality: u8) -> (r: Option<
    Vec<u8>,
>)
    requires
        rgba_fits(pixels@.len(), width, height),
        jpeg_dimensions(width, height),
    ensures
        bytes_of(r) == jpeg_encoding(pixels@, width, height, quality),
{
    let image = image::RgbaImage::from_raw(width, height, pixels)?;
    let mut out = std::io::Cursor::new(Vec::new());
    let encoder = image::codecs::jpeg::JpegEncoder::new_with_quality(&mut out, quality);
    image::DynamicImage::ImageRgba8(image).write_with_encoder(encoder).ok()?;
    Some(out.into_inner())
}

/// The character of the standard base64 alphabet for a six-bit value:
/// `A` to `Z`, `a` to `z`, `0` to `9`, `+`, `/`.
pub open spec fn base64_char(v: int) -> char {
    if v < 26 {
        (v + 0x41) as u8 as char
    } else if v < 52 {
        (v - 26 + 0x61) as u8 as char
    } else if v < 62 {
        (v - 52 + 0x30) as u8 as char
    } else if v == 62 {
        '+'
    } else {
        '/'
    }
}

/// Standard base64 with padding: every three bytes become four characters
/// of six bits each, most significant bits first; a last group of one or
/// two bytes is filled up with zero bits and closed with `=`.
pub open spec fn base64_text(bytes: Seq<u8>) -> Seq<char>
    decreases bytes.len(),
{
    if bytes.len() == 0 {
        Seq::empty()
    } else if bytes.len() == 1 {
        let a = bytes[0] as int;
        seq![base64_char(a / 4), base64_char(a % 4 * 16), '=', '=']
    } else if bytes.len() == 2 {
        let a = bytes[0] as int;
        let b = bytes[1] as int;
        seq![base64_char(a / 4), base64_char(a % 4 * 16 + b / 16), base64_char(b % 16 * 4), '=']
    } else {
        let a = bytes[0] as int;
        let b = bytes[1] as int;
        let c = bytes[2] as int;
        seq![
            base64_char(a / 4),
            base64_char(a % 4 * 16 + b / 16),
            base64_char(b % 16 * 4 + c / 64),
            base64_char(c % 64),
        ] + base64_text(bytes.skip(3))
    }
}

/// Whether the base64 text of `len` bytes has a length that `usize` holds.
pub open spec fn base64_in_reach(len: nat) -> bool {
    (len + 2) / 3 * 4 <= usize::MAX
}

/// Encodes bytes as base64 text.
///
/// Calls `Engine::encode` on `base64::engine::general_purpose::STANDARD`,
/// the engine of the standard alphabet with padding. The call panics where
/// the length of the text overflows `usize`; such input is left out.
#[verifier::external_body]
pub(crate) fn base64_encode(bytes: &[u8]) -> (text: String)
    requires
        base64_in_reach(bytes@.len()),
    ensures
        text@ == base64_text(bytes@),
{
    base64::engine::general_purpose::STANDARD.encode(bytes)
}

} // verus!
