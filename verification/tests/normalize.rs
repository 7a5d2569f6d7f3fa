use events_api::images::{conform_image, encode_canonical, DecodedImage};

fn png_bytes(width: u32, height: u32) -> Vec<u8> {
    let img = image::DynamicImage::ImageRgba8(image::RgbaImage::new(width, height));
    let mut out: Vec<u8> = Vec::new();
    img.write_to(&mut std::io::Cursor::new(&mut out), image::ImageFormat::Png)
        .expect("png encoding should succeed");
    out
}

#[test]
fn normalizing_within_bounds_equals_plain_reencode() {
    // An image already within the maximum bounds is never resampled:
    // normalizing it gives byte-identical output to re-encoding the
    // decoded pixels without any resize.
    let bytes = png_bytes(8, 8);
    let first = DecodedImage::from_bytes("a.png", &bytes).unwrap();
    let normalized = conform_image("a.png", first).unwrap();
    let second = DecodedImage::from_bytes("a.png", &bytes).unwrap();
    let reencoded = encode_canonical("a.png", &second).unwrap();
    assert_eq!(normalized, reencoded);
    assert!(!normalized.is_empty());
    // The stored form is a re-encoding, not the upload handed back.
    assert_ne!(normalized, bytes);
}
