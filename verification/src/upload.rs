//! Taking one uploaded image in: the byte limit enforced chunk by chunk
//! while the stream arrives, the first checks on the upload field itself, and the
//! pipeline from buffered bytes to the stored form.
//!
//! The transport hands chunks in and carries the result out; every
//! decision in between lives here.

use vstd::prelude::*;
use crate::errors::ImageUploadError;
use crate::images::{
    avif_result, check_minimum, conform_image, conform_target, decoded_image, image_dims,
    spec_classify, too_small, DecodedImage, ImageType,
};

verus! {

/// The most bytes one uploaded image may hold.
pub const MAX_IMAGE_SIZE: usize = 1024 * 1024 * 10;

/// Collects an upload's bytes chunk by chunk, refusing to grow past the
/// fixed byte limit. The check runs as each chunk arrives, so an
/// oversized stream fails as soon as it crosses the limit, not after it
/// has been buffered whole.
pub struct BoundedBuffer {
    data: Vec<u8>,
}

impl View for BoundedBuffer {
    type V = Seq<u8>;

    closed spec fn view(&self) -> Seq<u8> {
        self.data@
    }
}

impl BoundedBuffer {
    /// Never past the limit.
    pub open spec fn wf(&self) -> bool {
        self@.len() <= MAX_IMAGE_SIZE
    }

    /// An empty buffer.
    pub fn new() -> (r: BoundedBuffer)
        ensures
            r@ == Seq::<u8>::empty(),
            r.wf(),
    {
        let r = BoundedBuffer { data: Vec::new() };
        proof {
            assert(r@ =~= Seq::<u8>::empty());
        }
        r
    }

    /// How many bytes have arrived.
    pub fn len(&self) -> (r: usize)
        ensures
            r == self@.len(),
    {
        self.data.len()
    }

    /// Take one chunk in. A chunk that would push the total past the
    /// limit is refused, naming the image, and the buffer keeps only
    /// what had arrived before it.
    pub fn push_chunk(&mut self, name: &str, chunk: &[u8]) -> (r: Result<(), ImageUploadError>)
        requires
            old(self).wf(),
        ensures
            final(self).wf(),
            old(self)@.len() + chunk@.len() <= MAX_IMAGE_SIZE ==> r is Ok && final(self)@ == old(
                self,
            )@ + chunk@,
            old(self)@.len() + chunk@.len() > MAX_IMAGE_SIZE ==> {
                &&& final(self)@ == old(self)@
                &&& r matches Err(e) && e matches ImageUploadError::ImageTooLarge { image_name }
                    && image_name@ == name@
            },
    {
        if chunk.len() > MAX_IMAGE_SIZE - self.data.len() {
            Err(ImageUploadError::ImageTooLarge { image_name: name.to_owned() })
        } else {
            self.data.extend_from_slice(chunk);
            Ok(())
        }
    }

    /// Hand the buffered bytes over.
    pub fn into_bytes(self) -> (r: Vec<u8>)
        ensures
            r@ == self@,
    {
        self.data
    }
}

/// The object key an encoded image is stored under:
/// `<prefix>/<event>/<image>.avif`. The layout is a wire contract with
/// the blob store.
pub fn image_object_key(prefix: &str, event_id: &str, image_id: &str) -> (r: String)
    ensures
        r@ == prefix@ + "/"@ + event_id@ + "/"@ + image_id@ + ".avif"@,
{
    let mut s = prefix.to_owned();
    s.append("/");
    s.append(event_id);
    s.append("/");
    s.append(image_id);
    s.append(".avif");
    s
}

/// The first checks on an upload field, before its bytes are read: a field with
/// no file name cannot be an image at all, and the declared media type
/// must name one of the accepted formats.
pub fn classify_upload(file_name: Option<&str>, content_type: Option<&str>) -> (r: Result<
    ImageType,
    ImageUploadError,
>)
    ensures
        match r {
            Ok(t) => {
                &&& file_name is Some
                &&& content_type matches Some(ct) && spec_classify(ct@) == Some(t)
            },
            Err(e) => match e {
                ImageUploadError::InvalidImage => file_name is None,
                ImageUploadError::UnsupportedImageFormat { image_name } => {
                    &&& file_name matches Some(n) && image_name@ == n@
                    &&& match content_type {
                        None => true,
                        Some(ct) => spec_classify(ct@) is None,
                    }
                },
                _ => false,
            },
        },
{
    let name = match file_name {
        None => {
            return Err(ImageUploadError::InvalidImage);
        },
        Some(n) => n,
    };
    let ct = match content_type {
        None => {
            return Err(
                ImageUploadError::UnsupportedImageFormat { image_name: name.to_owned() },
            );
        },
        Some(ct) => ct,
    };
    match ImageType::classify(ct) {
        Some(t) => Ok(t),
        None => Err(ImageUploadError::UnsupportedImageFormat { image_name: name.to_owned() }),
    }
}

/// Whether an upload's bytes decode to an image of acceptable minimum
/// size.
pub open spec fn upload_acceptable(bytes: Seq<u8>) -> bool {
    &&& decoded_image(bytes) matches Some(img)
    &&& !too_small(image_dims(decoded_image(bytes)->Some_0).0, image_dims(
        decoded_image(bytes)->Some_0,
    ).1)
}

/// The stored form an upload's bytes lead to, when they decode, pass the
/// minimum size, and the encoder accepts the (possibly resized) buffer.
pub open spec fn upload_result(bytes: Seq<u8>) -> Option<Seq<u8>> {
    avif_result(conform_target(decoded_image(bytes)->Some_0))
}

/// One upload from its buffered bytes to the stored form: decode the
/// bytes, reject an image below the minimum size before anything is
/// encoded, then resize into bounds if needed and encode canonically.
/// Success comes exactly when the bytes decode, the image is not too
/// small, and the encoder accepts the buffer; every failure names the
/// image and says which stage refused it.
pub fn process_image_bytes(name: &str, bytes: &Vec<u8>) -> (r: Result<Vec<u8>, ImageUploadError>)
    ensures
        r is Ok <==> upload_acceptable(bytes@) && upload_result(bytes@) is Some,
        match r {
            Ok(out) => upload_result(bytes@) == Some(out@),
            Err(e) => match e {
                ImageUploadError::ImageTypeGuessError { image_name } => image_name@ == name@
                    && decoded_image(bytes@) is None,
                ImageUploadError::ImageDecodingError { image_name } => image_name@ == name@
                    && decoded_image(bytes@) is None,
                ImageUploadError::ImageTooSmall { image_name } => image_name@ == name@
                    && decoded_image(bytes@) is Some && !upload_acceptable(bytes@),
                ImageUploadError::ImageEncodingError { image_name } => image_name@ == name@
                    && upload_acceptable(bytes@) && upload_result(bytes@) is None,
                _ => false,
            },
        },
{
    let image = match DecodedImage::from_bytes(name, bytes) {
        Err(e) => {
            return Err(e);
        },
        Ok(di) => di,
    };
    match check_minimum(name, &image) {
        Err(e) => {
            return Err(e);
        },
        Ok(()) => {},
    }
    let ghost di = image;
    match conform_image(name, image) {
        Err(e) => Err(e),
        Ok(out) => {
            proof {
                assert(di.wf() && !too_small(di.width, di.height));
            }
            Ok(out)
        },
    }
}

} // verus!
