use events_api::auth::Claims;
use events_api::errors::ImageUploadError;
use events_api::images::{
    assert_image_size, is_image_too_small, is_image_within_bounds, DecodedImage, ImageType,
};
use events_api::upload::{classify_upload, image_object_key, process_image_bytes};

fn png_bytes(width: u32, height: u32) -> Vec<u8> {
    let img = image::DynamicImage::ImageRgba8(image::RgbaImage::new(width, height));
    let mut out: Vec<u8> = Vec::new();
    img.write_to(&mut std::io::Cursor::new(&mut out), image::ImageFormat::Png)
        .expect("png encoding should succeed");
    out
}

#[test]
fn minimum_bound_is_exclusive() {
    assert!(is_image_too_small(799, 2000));
    assert!(is_image_too_small(2000, 799));
    assert!(is_image_too_small(10, 10));
    assert!(!is_image_too_small(800, 800));
    assert!(!is_image_too_small(801, 800));
}

#[test]
fn maximum_bound_needs_strictly_less_on_both_axes() {
    assert!(is_image_within_bounds(1279, 1279));
    assert!(!is_image_within_bounds(1280, 1280));
    assert!(!is_image_within_bounds(1280, 100));
    assert!(!is_image_within_bounds(100, 1280));
    assert!(is_image_within_bounds(800, 800));
}

#[test]
fn classify_recognizes_exactly_three_media_types() {
    assert_eq!(ImageType::classify("image/jpeg"), Some(ImageType::Jpeg));
    assert_eq!(ImageType::classify("image/png"), Some(ImageType::Png));
    assert_eq!(ImageType::classify("image/avif"), Some(ImageType::Avif));
    assert_eq!(ImageType::classify("image/webp"), None);
    assert_eq!(ImageType::classify(""), None);
    assert_eq!(ImageType::classify("IMAGE/PNG"), None);
}

#[test]
fn media_type_round_trips_through_classify() {
    for t in [ImageType::Jpeg, ImageType::Png, ImageType::Avif] {
        assert_eq!(ImageType::classify(&t.media_type()), Some(t));
    }
}

#[test]
fn classify_upload_screens_the_field() {
    assert!(matches!(
        classify_upload(None, Some("image/png")),
        Err(ImageUploadError::InvalidImage)
    ));
    match classify_upload(Some("a.png"), None) {
        Err(ImageUploadError::UnsupportedImageFormat { image_name }) => {
            assert_eq!(image_name, "a.png")
        },
        other => panic!("expected UnsupportedImageFormat, got {:?}", other),
    }
    match classify_upload(Some("a.bmp"), Some("image/bmp")) {
        Err(ImageUploadError::UnsupportedImageFormat { image_name }) => {
            assert_eq!(image_name, "a.bmp")
        },
        other => panic!("expected UnsupportedImageFormat, got {:?}", other),
    }
    assert!(matches!(
        classify_upload(Some("a.png"), Some("image/png")),
        Ok(ImageType::Png)
    ));
}

#[test]
fn tiny_upload_is_rejected_before_any_encoding() {
    let bytes = png_bytes(10, 10);
    match process_image_bytes("tiny.png", &bytes) {
        Err(ImageUploadError::ImageTooSmall { image_name }) => {
            assert_eq!(image_name, "tiny.png")
        },
        other => panic!("expected ImageTooSmall, got {:?}", other.err()),
    }
}

#[test]
fn unreadable_bytes_fail_decoding() {
    let bytes = vec![1u8, 2, 3, 4, 5, 6, 7, 8];
    match process_image_bytes("junk.bin", &bytes) {
        Err(ImageUploadError::ImageDecodingError { image_name }) => {
            assert_eq!(image_name, "junk.bin")
        },
        other => panic!("expected ImageDecodingError, got {:?}", other.err()),
    }
}

#[test]
fn oversized_image_is_scaled_into_the_box() {
    let bytes = png_bytes(100, 1400);
    let decoded = DecodedImage::from_bytes("tall.png", &bytes).unwrap();
    assert_eq!((decoded.width, decoded.height), (100, 1400));
    let fitted = assert_image_size(decoded);
    assert_eq!((fitted.width, fitted.height), (91, 1280));
}

#[test]
fn within_bounds_image_passes_through_untouched() {
    let bytes = png_bytes(900, 900);
    let decoded = DecodedImage::from_bytes("ok.png", &bytes).unwrap();
    let kept = assert_image_size(decoded);
    assert_eq!((kept.width, kept.height), (900, 900));
}

#[test]
fn object_key_layout() {
    assert_eq!(
        image_object_key(
            "events",
            "67e55044-10b1-426f-9247-bb680e5fe0c8",
            "00000000-0000-0000-0000-000000000001"
        ),
        "events/67e55044-10b1-426f-9247-bb680e5fe0c8/00000000-0000-0000-0000-000000000001.avif"
    );
}

#[test]
fn group_membership_decision() {
    let claims = Claims { groups: vec!["users".to_string(), "content-creators".to_string()] };
    assert!(claims.is_member_of("content-creators"));
    assert!(!claims.is_member_of("admins"));
    let empty = Claims { groups: Vec::new() };
    assert!(!empty.is_member_of("content-creators"));
}

#[test]
fn error_codes_and_statuses() {
    let too_large = ImageUploadError::ImageTooLarge { image_name: "a".to_string() };
    assert_eq!(too_large.error_code(), "IMAGE_TOO_LARGE");
    assert_eq!(too_large.status_code(), 400);
    let too_small = ImageUploadError::ImageTooSmall { image_name: "a".to_string() };
    assert_eq!(too_small.error_code(), "IMAGE_TOO_SMALL");
    let unsupported = ImageUploadError::UnsupportedImageFormat { image_name: "a".to_string() };
    assert_eq!(unsupported.error_code(), "UNSUPPORTED_IMAGE_FORMAT");
    let read = ImageUploadError::ReadError { image_name: "a".to_string() };
    assert_eq!(read.error_code(), "IMAGE_CONVERSION_ERROR");
    assert_eq!(ImageUploadError::StorageError.error_code(), "IMAGE_STORAGE_ERROR");
    assert_eq!(ImageUploadError::StorageError.status_code(), 500);
    assert_eq!(ImageUploadError::InvalidImage.error_code(), "INVALID_IMAGE");
}
