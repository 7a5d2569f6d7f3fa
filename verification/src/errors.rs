//! The error taxonomy: decode errors, entity-level errors, image errors.
//! All failures are plain values handed back to the caller; nothing here
//! retries or logs.

use vstd::prelude::*;

verus! {

/// A structured failure produced while converting a raw record field into
/// its typed domain value.
#[derive(Debug, Clone)]
pub enum ModelError {
    /// The field is present but its stored variant has the wrong shape.
    InvalidData(String),
    /// The field is absent from the record; carries the field name.
    MissingField(String),
    /// The field's string form does not parse as the expected kind;
    /// carries the field name, the expected kind, and the raw value.
    InvalidType(String, String, String),
    /// The field's string form does not parse as the requested type;
    /// carries the field name and the raw value.
    InvalidGenericType(String, String),
    /// A delimited field's value holds no `#`; carries the field name.
    MissingDelimiter(String),
}

/// The mathematical shape of a `ModelError`: the same variants over
/// character sequences.
pub enum ModelErrorView {
    InvalidData(Seq<char>),
    MissingField(Seq<char>),
    InvalidType(Seq<char>, Seq<char>, Seq<char>),
    InvalidGenericType(Seq<char>, Seq<char>),
    MissingDelimiter(Seq<char>),
}

impl View for ModelError {
    type V = ModelErrorView;

    open spec fn view(&self) -> ModelErrorView {
        match self {
            ModelError::InvalidData(s) => ModelErrorView::InvalidData(s@),
            ModelError::MissingField(s) => ModelErrorView::MissingField(s@),
            ModelError::InvalidType(f, k, r) => ModelErrorView::InvalidType(f@, k@, r@),
            ModelError::InvalidGenericType(f, r) => ModelErrorView::InvalidGenericType(f@, r@),
            ModelError::MissingDelimiter(s) => ModelErrorView::MissingDelimiter(s@),
        }
    }
}

/// The store adapter could not run the query at all.
#[derive(Debug, Clone)]
pub struct DatabaseQueryFailed;

/// The store adapter answered with a shape it never promises;
/// carries a description of the unexpected response.
#[derive(Debug, Clone)]
pub struct UnknownSdkError(pub String);

/// A failure while taking one uploaded image in; each variant that can
/// name the offending field carries that name, so a caller juggling
/// several uploads can say which one failed.
#[derive(Debug, Clone)]
pub enum ImageUploadError {
    /// The upload field carries no file name, so it cannot be an image.
    InvalidImage,
    /// The declared media type is not one of the accepted formats.
    UnsupportedImageFormat { image_name: String },
    /// The stream ran past the fixed byte limit.
    ImageTooLarge { image_name: String },
    /// A decoded dimension lies below the fixed minimum.
    ImageTooSmall { image_name: String },
    /// The bytes match no known image format.
    ImageTypeGuessError { image_name: String },
    /// The bytes would not decode in their recognized format.
    ImageDecodingError { image_name: String },
    /// Re-encoding into the canonical storage format failed.
    ImageEncodingError { image_name: String },
    /// The transport failed while the field's bytes were being read.
    ReadError { image_name: String },
    /// The blob store refused the write.
    StorageError,
}

/// The body of an error answer as the handler layer serializes it: a
/// stable error code and optional named parameters.
pub struct RestErrorBody {
    pub error_code: String,
    pub error_params: Option<Vec<(String, String)>>,
}

impl ImageUploadError {
    /// Whether the caller, not the platform, caused this failure: user
    /// errors answer with a client error status, and only system errors
    /// are worth alerting on.
    pub open spec fn spec_is_user_error(&self) -> bool {
        !(self is StorageError)
    }

    /// The stable error code for this failure.
    pub open spec fn spec_error_code(&self) -> Seq<char> {
        match self {
            ImageUploadError::InvalidImage => "INVALID_IMAGE"@,
            ImageUploadError::UnsupportedImageFormat { .. } => "UNSUPPORTED_IMAGE_FORMAT"@,
            ImageUploadError::ImageTooLarge { .. } => "IMAGE_TOO_LARGE"@,
            ImageUploadError::ImageTooSmall { .. } => "IMAGE_TOO_SMALL"@,
            ImageUploadError::ImageTypeGuessError { .. } => "IMAGE_CONVERSION_ERROR"@,
            ImageUploadError::ImageDecodingError { .. } => "IMAGE_CONVERSION_ERROR"@,
            ImageUploadError::ImageEncodingError { .. } => "IMAGE_CONVERSION_ERROR"@,
            ImageUploadError::ReadError { .. } => "IMAGE_CONVERSION_ERROR"@,
            ImageUploadError::StorageError => "IMAGE_STORAGE_ERROR"@,
        }
    }

    /// The HTTP status the handler layer answers with: a client error
    /// for what the caller caused, a server error for a storage failure.
    pub fn status_code(&self) -> (r: u16)
        ensures
            self.spec_is_user_error() ==> r == 400,
            !self.spec_is_user_error() ==> r == 500,
    {
        match self {
            ImageUploadError::StorageError => 500,
            _ => 400,
        }
    }

    /// The stable error code for this failure.
    pub fn error_code(&self) -> (r: String)
        ensures
            r@ == self.spec_error_code(),
    {
        match self {
            ImageUploadError::InvalidImage => String::from_str("INVALID_IMAGE"),
            ImageUploadError::UnsupportedImageFormat { .. } => String::from_str(
                "UNSUPPORTED_IMAGE_FORMAT",
            ),
            ImageUploadError::ImageTooLarge { .. } => String::from_str("IMAGE_TOO_LARGE"),
            ImageUploadError::ImageTooSmall { .. } => String::from_str("IMAGE_TOO_SMALL"),
            ImageUploadError::ImageTypeGuessError { .. } => String::from_str(
                "IMAGE_CONVERSION_ERROR",
            ),
            ImageUploadError::ImageDecodingError { .. } => String::from_str(
                "IMAGE_CONVERSION_ERROR",
            ),
            ImageUploadError::ImageEncodingError { .. } => String::from_str(
                "IMAGE_CONVERSION_ERROR",
            ),
            ImageUploadError::ReadError { .. } => String::from_str("IMAGE_CONVERSION_ERROR"),
            ImageUploadError::StorageError => String::from_str("IMAGE_STORAGE_ERROR"),
        }
    }
}

} // verus!
