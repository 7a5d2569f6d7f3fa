//! Image classification, dimension rules, and normalization: which
//! declared media types are accepted, the fixed minimum/maximum pixel
//! bounds an upload must meet, and the resize-and-re-encode step that
//! turns an accepted upload into its stored form.
//!
//! The pixel work itself is the `image` crate's; this module holds it
//! behind a small set of trusted wrappers and verifies every decision
//! around it.

use vstd::prelude::*;
use crate::errors::ImageUploadError;
use image::GenericImageView;

verus! {

/// Largest dimension kept as stored; anything at or above this on either
/// axis is resized down into the `MAX_IMAGE_DIMENSION` box.
pub const MAX_IMAGE_DIMENSION: u32 = 1280;

/// Smallest accepted dimension: an upload strictly below this on either
/// axis is rejected.
pub const MIN_IMAGE_DIMENSION: u32 = 800;

/// The declared media type of an upload: one of the two accepted source
/// formats, or the canonical storage format.
#[derive(Debug, Clone, Copy, PartialEq, Eq, Structural)]
pub enum ImageType {
    Jpeg,
    Png,
    Avif,
}

/// Both axes lie strictly below the maximum bound. The boundary is
/// deliberately exclusive on both axes: an image stored exactly at the
/// maximum does not count as within bounds.
pub open spec fn within_bounds(width: u32, height: u32) -> bool {
    width < MAX_IMAGE_DIMENSION && height < MAX_IMAGE_DIMENSION
}

/// Either axis lies strictly below the minimum bound; the boundary itself
/// (exactly the minimum on both axes) is acceptable.
pub open spec fn too_small(width: u32, height: u32) -> bool {
    width < MIN_IMAGE_DIMENSION || height < MIN_IMAGE_DIMENSION
}

/// The maximum-bound check: strictly less than the maximum on both axes.
pub fn is_image_within_bounds(width: u32, height: u32) -> (r: bool)
    ensures
        r == within_bounds(width, height),
{
    width < MAX_IMAGE_DIMENSION && height < MAX_IMAGE_DIMENSION
}

/// The minimum-bound check: strictly below the minimum on either axis.
pub fn is_image_too_small(width: u32, height: u32) -> (r: bool)
    ensures
        r == too_small(width, height),
{
    width < MIN_IMAGE_DIMENSION || height < MIN_IMAGE_DIMENSION
}

/// The media type a classified value answers for itself.
pub open spec fn spec_media_type(t: ImageType) -> Seq<char> {
    match t {
        ImageType::Jpeg => "image/jpeg"@,
        ImageType::Png => "image/png"@,
        ImageType::Avif => "image/avif"@,
    }
}

/// Which `ImageType` a declared media type string names, if any.
pub open spec fn spec_classify(s: Seq<char>) -> Option<ImageType> {
    if s == "image/jpeg"@ {
        Some(ImageType::Jpeg)
    } else if s == "image/png"@ {
        Some(ImageType::Png)
    } else if s == "image/avif"@ {
        Some(ImageType::Avif)
    } else {
        None
    }
}

impl ImageType {
    /// Recognize a declared media type string; anything but the three
    /// canonical strings is unsupported.
    pub fn classify(value: &str) -> (r: Option<ImageType>)
        ensures
            r == spec_classify(value@),
    {
        let v = value.to_owned();
        if v == String::from_str("image/jpeg") {
            Some(ImageType::Jpeg)
        } else if v == String::from_str("image/png") {
            Some(ImageType::Png)
        } else if v == String::from_str("image/avif") {
            Some(ImageType::Avif)
        } else {
            None
        }
    }

    /// The canonical media type string for this format.
    pub fn media_type(&self) -> (r: String)
        ensures
            r@ == spec_media_type(*self),
    {
        match self {
            ImageType::Jpeg => String::from_str("image/jpeg"),
            ImageType::Png => String::from_str("image/png"),
            ImageType::Avif => String::from_str("image/avif"),
        }
    }
}

// ---------------------------------------------------------------------
// The pixel buffer and the trusted wrappers around the image crate
// ---------------------------------------------------------------------

#[verifier::external_type_specification]
#[verifier::external_body]
pub struct ExDynamicImage(image::DynamicImage);

/// The width and height of a pixel buffer.
pub uninterp spec fn image_dims(img: image::DynamicImage) -> (u32, u32);

/// The pixel buffer that resizing into a `w` by `h` box with the fixed
/// Catmull-Rom filter produces; a pure function of the pixels and bounds.
pub uninterp spec fn resized_image(img: image::DynamicImage, w: u32, h: u32) -> image::DynamicImage;

/// What decoding a byte sequence yields: the pixel buffer when the bytes
/// form a decodable image in a recognized format, nothing otherwise; a
/// pure function of the bytes.
pub uninterp spec fn decoded_image(bytes: Seq<u8>) -> Option<image::DynamicImage>;

/// What encoding a pixel buffer into the canonical storage format
/// yields: the encoded bytes, or nothing when the encoder refuses the
/// buffer; a pure function of the pixels, since the encoder is pinned to
/// a fixed thread count.
pub uninterp spec fn avif_result(img: image::DynamicImage) -> Option<Seq<u8>>;

/// Which step of reading an image out of raw bytes failed.
enum DecodeFailure {
    FormatGuess,
    Decoding,
}

/// Relies on `image::ImageReader`: guess the format from the bytes
/// themselves, then decode them into a pixel buffer; both steps depend
/// on the bytes alone. The two failure stages are told apart, but which
/// of them rejects a given input is left open.
#[verifier::external_body]
fn decode_image_bytes(bytes: &Vec<u8>) -> (r: Result<image::DynamicImage, DecodeFailure>)
    ensures
        r is Ok <==> decoded_image(bytes@) is Some,
        r matches Ok(img) ==> decoded_image(bytes@) == Some(img),
{
    let reader = match image::ImageReader::new(std::io::Cursor::new(bytes)).with_guessed_format() {
        Ok(reader) => reader,
        Err(_) => {
            return Err(DecodeFailure::FormatGuess);
        },
    };
    match reader.decode() {
        Ok(img) => Ok(img),
        Err(_) => Err(DecodeFailure::Decoding),
    }
}

/// Relies on `GenericImageView::dimensions`: the width and height of
/// the buffer.
#[verifier::external_body]
fn dims_of(img: &image::DynamicImage) -> (r: (u32, u32))
    ensures
        r == image_dims(*img),
{
    img.dimensions()
}

/// Relies on `DynamicImage::resize`: for nonzero bounds the result is
/// scaled to the largest size that fits within them, keeping the aspect
/// ratio, and depends on the pixels and bounds alone. (On a zero bound
/// the scaler still yields a one-pixel axis, so zero is excluded here.)
#[verifier::external_body]
fn resize_to(img: &image::DynamicImage, w: u32, h: u32) -> (r: image::DynamicImage)
    requires
        1 <= w,
        1 <= h,
    ensures
        r == resized_image(*img, w, h),
        image_dims(r).0 <= w,
        image_dims(r).1 <= h,
{
    img.resize(w, h, image::imageops::FilterType::CatmullRom)
}

/// Relies on `DynamicImage::write_with_encoder` with the AVIF encoder at
/// its default speed and quality, pinned to one thread. The pinning
/// matters: left to its default, the encoder picks its tile count from
/// the running thread pool, and the tile count shapes the bitstream;
/// with one thread the outcome depends on the pixels alone.
#[verifier::external_body]
fn encode_avif_bytes(img: &image::DynamicImage) -> (r: Result<Vec<u8>, ()>)
    ensures
        r is Ok <==> avif_result(*img) is Some,
        r matches Ok(v) ==> avif_result(*img) == Some(v@),
{
    let mut out: Vec<u8> = Vec::new();
    let encoder = image::codecs::avif::AvifEncoder::new(&mut out).with_num_threads(Some(1));
    match img.write_with_encoder(encoder) {
        Ok(()) => Ok(out),
        Err(_) => Err(()),
    }
}

/// A decoded upload: the pixel buffer with its dimensions read once at
/// decode time.
pub struct DecodedImage {
    pub img: image::DynamicImage,
    pub width: u32,
    pub height: u32,
}

impl DecodedImage {
    /// The stored dimensions are the buffer's real ones.
    pub open spec fn wf(&self) -> bool {
        (self.width, self.height) == image_dims(self.img)
    }

    /// Decode an upload's buffered bytes: succeeds exactly when the
    /// bytes form a decodable image, and then holds exactly their
    /// decoding; the failure names the stage (unrecognizable format, or
    /// a failed decode) and the image.
    pub fn from_bytes(name: &str, bytes: &Vec<u8>) -> (r: Result<DecodedImage, ImageUploadError>)
        ensures
            r is Ok <==> decoded_image(bytes@) is Some,
            r matches Ok(di) ==> di.wf() && decoded_image(bytes@) == Some(di.img),
            r matches Err(e) ==> {
                ||| e matches ImageUploadError::ImageTypeGuessError { image_name } && image_name@
                    == name@
                ||| e matches ImageUploadError::ImageDecodingError { image_name } && image_name@
                    == name@
            },
    {
        match decode_image_bytes(bytes) {
            Err(DecodeFailure::FormatGuess) => Err(
                ImageUploadError::ImageTypeGuessError { image_name: name.to_owned() },
            ),
            Err(DecodeFailure::Decoding) => Err(
                ImageUploadError::ImageDecodingError { image_name: name.to_owned() },
            ),
            Ok(img) => {
                let d = dims_of(&img);
                Ok(DecodedImage { img, width: d.0, height: d.1 })
            },
        }
    }
}

/// The minimum-size rule: an upload strictly below the minimum on either
/// axis is rejected, naming the image; the boundary itself passes.
pub fn check_minimum(name: &str, image: &DecodedImage) -> (r: Result<(), ImageUploadError>)
    ensures
        r is Ok <==> !too_small(image.width, image.height),
        r matches Err(e) ==> e matches ImageUploadError::ImageTooSmall { image_name } && image_name@
            == name@,
{
    if is_image_too_small(image.width, image.height) {
        Err(ImageUploadError::ImageTooSmall { image_name: name.to_owned() })
    } else {
        Ok(())
    }
}

/// Scale an image down into the maximum-dimension box when it is not
/// within bounds; one already within bounds passes through untouched.
pub fn assert_image_size(image: DecodedImage) -> (r: DecodedImage)
    requires
        image.wf(),
    ensures
        r.wf(),
        within_bounds(image.width, image.height) ==> r == image,
        !within_bounds(image.width, image.height) ==> r.img == resized_image(
            image.img,
            MAX_IMAGE_DIMENSION,
            MAX_IMAGE_DIMENSION,
        ) && r.width <= MAX_IMAGE_DIMENSION && r.height <= MAX_IMAGE_DIMENSION,
{
    if is_image_within_bounds(image.width, image.height) {
        return image;
    }
    let resized = resize_to(&image.img, MAX_IMAGE_DIMENSION, MAX_IMAGE_DIMENSION);
    let d = dims_of(&resized);
    DecodedImage { img: resized, width: d.0, height: d.1 }
}

/// The buffer that normalization encodes: the pixels as decoded when
/// they are within bounds, else their resizing into the box.
pub open spec fn conform_target(img: image::DynamicImage) -> image::DynamicImage {
    if within_bounds(image_dims(img).0, image_dims(img).1) {
        img
    } else {
        resized_image(img, MAX_IMAGE_DIMENSION, MAX_IMAGE_DIMENSION)
    }
}

/// Normalize a decoded upload into its stored form: resize into the box
/// only when the image is out of bounds, then encode into the canonical
/// storage format. An image already within bounds is never resampled:
/// the output is exactly the encoding of its pixels as decoded. An
/// upload that already arrived in the canonical format is still encoded
/// this once — handing its decoded buffer onward unencoded would store
/// raw samples, not a canonical file — so the guarantee held here is
/// that no resample-then-encode cycle is ever added on top of that one
/// encoding.
pub fn conform_image(name: &str, image: DecodedImage) -> (r: Result<Vec<u8>, ImageUploadError>)
    requires
        image.wf(),
    ensures
        r is Ok <==> avif_result(conform_target(image.img)) is Some,
        r matches Ok(v) ==> avif_result(conform_target(image.img)) == Some(v@),
        within_bounds(image.width, image.height) && r is Ok ==> avif_result(image.img) == Some(
            r->Ok_0@,
        ),
        r matches Err(e) ==> e matches ImageUploadError::ImageEncodingError { image_name }
            && image_name@ == name@,
{
    let incoming = assert_image_size(image);
    match encode_avif_bytes(&incoming.img) {
        Ok(v) => Ok(v),
        Err(_) => Err(ImageUploadError::ImageEncodingError { image_name: name.to_owned() }),
    }
}

/// Re-encode the pixels into the canonical storage format, with no
/// resizing whatever the dimensions are; succeeds exactly when the
/// encoder accepts the buffer.
pub fn encode_canonical(name: &str, image: &DecodedImage) -> (r: Result<Vec<u8>, ImageUploadError>)
    ensures
        r is Ok <==> avif_result(image.img) is Some,
        r matches Ok(v) ==> avif_result(image.img) == Some(v@),
        r matches Err(e) ==> e matches ImageUploadError::ImageEncodingError { image_name }
            && image_name@ == name@,
{
    match encode_avif_bytes(&image.img) {
        Ok(v) => Ok(v),
        Err(_) => Err(ImageUploadError::ImageEncodingError { image_name: name.to_owned() }),
    }
}

/// Law: normalizing an image that is already within bounds recompresses
/// nothing beyond the one canonical encoding: what `conform_image`
/// returns is byte-identical to what `encode_canonical` returns for the
/// same decoded pixels, as both contracts pin their output to the same
/// encoding of the unresized buffer.
pub proof fn lemma_normalize_pass_through(image: DecodedImage, out: Seq<u8>, reencoded: Seq<u8>)
    requires
        within_bounds(image.width, image.height),
        avif_result(image.img) == Some(out),
        avif_result(image.img) == Some(reencoded),
    ensures
        out == reencoded,
{
}

} // verus!
