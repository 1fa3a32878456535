use base64::Engine;
use screen_share::frame::{encode_capture, pack_frame, ScreenFrame, JPEG_QUALITY};

fn rgba(width: u32, height: u32) -> Vec<u8> {
    let mut pixels = Vec::new();
    for y in 0..height {
        for x in 0..width {
            pixels.push((x * 7 % 256) as u8);
            pixels.push((y * 13 % 256) as u8);
            pixels.push(((x + y) * 3 % 256) as u8);
            pixels.push(255);
        }
    }
    pixels
}

fn jpeg_by_the_image_crate(pixels: Vec<u8>, width: u32, height: u32, quality: u8) -> Vec<u8> {
    let image = image::RgbaImage::from_raw(width, height, pixels).unwrap();
    let mut out = std::io::Cursor::new(Vec::new());
    let encoder = image::codecs::jpeg::JpegEncoder::new_with_quality(&mut out, quality);
    image::DynamicImage::ImageRgba8(image).write_with_encoder(encoder).unwrap();
    out.into_inner()
}

#[test]
fn quality_is_fifty() {
    assert_eq!(JPEG_QUALITY, 50);
}

#[test]
fn packs_known_base64_vectors() {
    let vectors: [(&[u8], &str); 7] = [
        (b"", ""),
        (b"f", "Zg=="),
        (b"fo", "Zm8="),
        (b"foo", "Zm9v"),
        (b"foob", "Zm9vYg=="),
        (b"fooba", "Zm9vYmE="),
        (b"foobar", "Zm9vYmFy"),
    ];
    for (bytes, text) in vectors {
        let frame = pack_frame(Some(bytes.to_vec()), 3, 2).unwrap();
        assert_eq!(frame, ScreenFrame::new(text.to_string(), 3, 2));
    }
}

#[test]
fn packs_every_six_bit_value() {
    let frame = pack_frame(Some(vec![0x00, 0x10, 0x83, 0xfb, 0xef, 0xbe, 0xff]), 1, 1).unwrap();
    assert_eq!(frame.data, "ABCD++++/w==");
}

/// Base64 by the rule: six bits per character, most significant first.
fn six_bit_text(bytes: &[u8]) -> String {
    let alphabet: Vec<char> =
        "ABCDEFGHIJKLMNOPQRSTUVWXYZabcdefghijklmnopqrstuvwxyz0123456789+/".chars().collect();
    let mut text = String::new();
    for group in bytes.chunks(3) {
        let a = group[0] as usize;
        let b = if group.len() > 1 { group[1] as usize } else { 0 };
        let c = if group.len() > 2 { group[2] as usize } else { 0 };
        text.push(alphabet[a / 4]);
        text.push(alphabet[a % 4 * 16 + b / 16]);
        text.push(if group.len() > 1 { alphabet[b % 16 * 4 + c / 64] } else { '=' });
        text.push(if group.len() > 2 { alphabet[c % 64] } else { '=' });
    }
    text
}

#[test]
fn packed_payload_follows_the_six_bit_rule() {
    for byte in 0..=255u8 {
        assert_eq!(pack_frame(Some(vec![byte]), 1, 1).unwrap().data, six_bit_text(&[byte]));
        let pair = [byte, byte.wrapping_mul(31).wrapping_add(7)];
        assert_eq!(pack_frame(Some(pair.to_vec()), 1, 1).unwrap().data, six_bit_text(&pair));
    }
    let mut state: u32 = 12345;
    for len in 0..200usize {
        let mut bytes = Vec::new();
        for _ in 0..len {
            state = state.wrapping_mul(1664525).wrapping_add(1013904223);
            bytes.push((state >> 24) as u8);
        }
        let frame = pack_frame(Some(bytes.clone()), 2, 2).unwrap();
        assert_eq!(frame.data, six_bit_text(&bytes));
        assert_eq!(frame.data.len(), (len + 2) / 3 * 4);
    }
}

#[test]
fn packs_nothing_where_there_is_no_image() {
    assert_eq!(pack_frame(None, 10, 10), None);
}

#[test]
fn capture_becomes_a_jpeg_in_base64_with_its_dimensions() {
    let frame = encode_capture(rgba(16, 8), 16, 8).unwrap();
    assert_eq!(frame.width, 16);
    assert_eq!(frame.height, 8);
    let jpeg = base64::engine::general_purpose::STANDARD.decode(&frame.data).unwrap();
    assert_eq!(&jpeg[..3], &[0xff, 0xd8, 0xff]);
    assert_eq!(&jpeg[jpeg.len() - 2..], &[0xff, 0xd9]);
    assert_eq!(jpeg, jpeg_by_the_image_crate(rgba(16, 8), 16, 8, 50));
    let decoded = image::load_from_memory(&jpeg).unwrap();
    assert_eq!(decoded.width(), 16);
    assert_eq!(decoded.height(), 8);
}

#[test]
fn capture_differs_with_quality() {
    let frame = encode_capture(rgba(32, 32), 32, 32).unwrap();
    let other = jpeg_by_the_image_crate(rgba(32, 32), 32, 32, 90);
    let jpeg = base64::engine::general_purpose::STANDARD.decode(&frame.data).unwrap();
    assert_ne!(jpeg, other);
}

#[test]
fn same_capture_gives_the_same_frame() {
    assert_eq!(encode_capture(rgba(9, 5), 9, 5), encode_capture(rgba(9, 5), 9, 5));
}

#[test]
fn longer_buffer_than_needed_is_accepted() {
    let mut pixels = rgba(4, 4);
    pixels.extend_from_slice(&[1, 2, 3, 4, 5]);
    assert_eq!(encode_capture(pixels, 4, 4), encode_capture(rgba(4, 4), 4, 4));
}

#[test]
fn short_buffer_gives_no_frame() {
    let mut pixels = rgba(4, 4);
    pixels.pop();
    assert_eq!(encode_capture(pixels, 4, 4), None);
    assert_eq!(encode_capture(Vec::new(), 1, 1), None);
}

#[test]
fn empty_or_oversized_dimensions_give_no_frame() {
    assert_eq!(encode_capture(Vec::new(), 0, 0), None);
    assert_eq!(encode_capture(Vec::new(), 0, 5), None);
    assert_eq!(encode_capture(Vec::new(), 5, 0), None);
    assert_eq!(encode_capture(vec![0; 4 * 65536], 65536, 1), None);
    assert_eq!(encode_capture(vec![0; 4 * 65536], 1, 65536), None);
    assert_eq!(encode_capture(vec![0; 16], u32::MAX, u32::MAX), None);
}

#[test]
fn widest_image_is_encoded() {
    let frame = encode_capture(vec![128; 4 * 65535], 65535, 1).unwrap();
    assert_eq!((frame.width, frame.height), (65535, 1));
}
