use bettershot::ShotError;
use bettershot::compose::{Image, Pixel};
use bettershot::raster::{decode_raster, encode_raster};

fn sample_image() -> Image {
    let mut pixels = Vec::new();
    for k in 0..12u8 {
        pixels.push(Pixel { r: k, g: k + 100, b: 255 - k, a: 255 });
    }
    Image { width: 4, height: 3, pixels }
}

#[test]
fn encode_then_decode_returns_the_same_raster() {
    let img = sample_image();
    let bytes = encode_raster(&img).unwrap();
    let back = decode_raster(&bytes).unwrap();
    assert_eq!(back.width, 4);
    assert_eq!(back.height, 3);
    assert_eq!(back.pixels, img.pixels);
}

#[test]
fn container_layout_is_header_then_rgba() {
    let img = Image {
        width: 1,
        height: 1,
        pixels: vec![Pixel { r: 9, g: 8, b: 7, a: 6 }],
    };
    let bytes = encode_raster(&img).unwrap();
    assert_eq!(bytes, vec![1, 0, 0, 0, 1, 0, 0, 0, 9, 8, 7, 6]);
}

#[test]
fn truncated_container_is_refused() {
    let img = sample_image();
    let mut bytes = encode_raster(&img).unwrap();
    bytes.pop();
    assert_eq!(decode_raster(&bytes), Err(ShotError::DecodeError));
    assert_eq!(decode_raster(&[1, 2, 3]), Err(ShotError::DecodeError));
}

#[test]
fn header_contradicting_the_length_is_refused() {
    // declares 2x2 pixels but carries only one
    let bytes = vec![2, 0, 0, 0, 2, 0, 0, 0, 1, 2, 3, 4];
    assert_eq!(decode_raster(&bytes), Err(ShotError::DecodeError));
}

#[test]
fn empty_raster_round_trips() {
    let img = Image { width: 0, height: 0, pixels: Vec::new() };
    let bytes = encode_raster(&img).unwrap();
    assert_eq!(bytes.len(), 8);
    let back = decode_raster(&bytes).unwrap();
    assert_eq!(back.width, 0);
    assert_eq!(back.height, 0);
    assert!(back.pixels.is_empty());
}
