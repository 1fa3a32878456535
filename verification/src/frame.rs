//! One captured frame as it travels to the viewers.

use vstd::prelude::*;
use crate::codec::{
    base64_encode, base64_in_reach, base64_text, bytes_of, jpeg_dimensions, jpeg_encoding,
    jpeg_from_rgba, rgba_fits,
};

verus! {

/// A captured frame: the compressed image as text-safe characters, and the
/// pixel dimensions of the capture it was made from.
#[derive(Clone, Debug, PartialEq, Eq)]
pub struct ScreenFrame {
    pub data: String,
    pub width: u32,
    pub height: u32,
}

/// What a frame is to the contracts: its payload text and its dimensions.
pub struct FrameView {
    pub data: Seq<char>,
    pub width: u32,
    pub height: u32,
}

impl View for ScreenFrame {
    type V = FrameView;

    open spec fn view(&self) -> FrameView {
        FrameView { data: self.data@, width: self.width, height: self.height }
    }
}

impl ScreenFrame {
    /// A frame with the given payload text and dimensions.
    pub fn new(data: String, width: u32, height: u32) -> (frame: ScreenFrame)
        ensures
            frame@ == (FrameView { data: data@, width, height }),
    {
        ScreenFrame { data, width, height }
    }
}

/// The JPEG quality at which captures are compressed.
pub const JPEG_QUALITY: u8 = 50;

/// The frames that optional frames stand for in contracts.
pub open spec fn frame_view(frame: Option<ScreenFrame>) -> Option<FrameView> {
    match frame {
        Some(f) => Some(f@),
        None => None,
    }
}

/// The frame that carries a compressed image: its payload is the base64
/// text of the image. There is none where compression gave no image, nor
/// where the text would be too long for the machine to hold.
pub open spec fn packed_frame(image: Option<Seq<u8>>, width: u32, height: u32) -> Option<
    FrameView,
> {
    match image {
        Some(bytes) => if base64_in_reach(bytes.len()) {
            Some(FrameView { data: base64_text(bytes), width, height })
        } else {
            None
        },
        None => None,
    }
}

/// Packs a compressed image, if there is one, into a frame.
pub fn pack_frame(image: Option<Vec<u8>>, width: u32, height: u32) -> (frame: Option<ScreenFrame>)
    ensures
        frame_view(frame) == packed_frame(bytes_of(image), width, height),
{
    match image {
        None => None,
        Some(bytes) => {
            let len: usize = bytes.len();
            let groups: usize = len / 3 + if len % 3 == 0 {
                0
            } else {
                1
            };
            assert(groups == (len + 2) / 3);
            if groups > usize::MAX / 4 {
                None
            } else {
                let data = base64_encode(bytes.as_slice());
                Some(ScreenFrame { data, width, height })
            }
        },
    }
}

/// The frame that a capture gives: the pixels compressed to JPEG at
/// [`JPEG_QUALITY`], packed with the dimensions of the capture. There is
/// none where the buffer is too short for the dimensions, nor where a
/// dimension is 0 or above 65535.
pub open spec fn captured_frame(pixels: Seq<u8>, width: u32, height: u32) -> Option<FrameView> {
    if rgba_fits(pixels.len(), width, height) && jpeg_dimensions(width, height) {
        packed_frame(jpeg_encoding(pixels, width, height, JPEG_QUALITY), width, height)
    } else {
        None
    }
}

/// Turns the raw pixels of one capture into a frame.
///
/// `pixels` holds the capture row by row, four bytes (red, green, blue,
/// alpha) per pixel; bytes behind the last pixel are ignored.
pub fn encode_capture(pixels: Vec<u8>, width: u32, height: u32) -> (frame: Option<ScreenFrame>)
    ensures
        frame_view(frame) == captured_frame(pixels@, width, height),
{
    if width == 0 || width > 0xFFFF || height == 0 || height > 0xFFFF {
        return None;
    }
    assert(width * height <= 0xFFFF * 0xFFFF) by (nonlinear_arith)
        requires
            width <= 0xFFFF,
            height <= 0xFFFF,
    ;
    assert(4 * width * height == 4 * (width * height)) by (nonlinear_arith);
    let needed: u64 = 4 * ((width as u64) * (height as u64));
    if (pixels.len() as u64) < needed {
        return None;
    }
    let image = jpeg_from_rgba(pixels, width, height, JPEG_QUALITY);
    pack_frame(image, width, height)
}

} // verus!
