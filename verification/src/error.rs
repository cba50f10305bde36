use vstd::prelude::*;

verus! {

/// Error taxonomy for the upload core.
///
/// Protocol-level errors (`ContentDisposition`, `MissingFieldName`,
/// `MissingFilename`, `InvalidFieldName`, `ContentType`) terminate decoding of
/// the current request; resource-limit errors (`FileCount`, `FormCount`,
/// `FormSize`) terminate immediately; `Utf8` terminates the current field;
/// `ImageProcessing` and `Io` terminate only the derivative pipeline. None is
/// fatal to the process: every error is surfaced as a value to the caller.
#[derive(Clone, Copy, Debug, PartialEq, Eq, Structural)]
pub enum DropmuttError {
    /// A part's `Content-Disposition` header is absent or not valid UTF-8.
    ContentDisposition,
    /// A part's `Content-Disposition` carries no `name` attribute.
    MissingFieldName,
    /// A part routed to file storage carries no `filename` attribute.
    MissingFilename,
    /// A field name breaks the bracket grammar.
    InvalidFieldName,
    /// A declared media type that is neither a file, a text field, nor a
    /// nested multipart body; also a request body that is neither multipart
    /// nor form-urlencoded.
    ContentType,
    /// A text field's accumulated body reached the per-field byte cap.
    FormSize,
    /// More text fields than one form may carry.
    FormCount,
    /// More file parts than one form may carry.
    FileCount,
    /// A completed text field is not valid UTF-8.
    Utf8,
    /// The image format cannot be told from the extension, or decoding or
    /// re-encoding the image failed.
    ImageProcessing,
    /// Reading or writing a stored file failed.
    Io,
    /// A password check failed, or a user token is malformed.
    Login,
    /// The password hashing backend rejected its input.
    Bcrypt,
}

impl DropmuttError {
    /// A short human-readable description of the error.
    pub fn message(&self) -> (r: &'static str)
        ensures
            r@ == spec_message(*self),
    {
        match self {
            DropmuttError::ContentDisposition => "missing or unreadable content-disposition",
            DropmuttError::MissingFieldName => "part carries no field name",
            DropmuttError::MissingFilename => "file part carries no filename",
            DropmuttError::InvalidFieldName => "malformed field name",
            DropmuttError::ContentType => "request was made with bad Content-Type header",
            DropmuttError::FormSize => "text field too large",
            DropmuttError::FormCount => "too many text fields",
            DropmuttError::FileCount => "too many file parts",
            DropmuttError::Utf8 => "text field is not valid UTF-8",
            DropmuttError::ImageProcessing => "error processing image",
            DropmuttError::Io => "error reading or writing a stored file",
            DropmuttError::Login => "failed to log in user",
            DropmuttError::Bcrypt => "error in bcrypt",
        }
    }
}

/// The description each error carries.
pub open spec fn spec_message(e: DropmuttError) -> Seq<char> {
    match e {
        DropmuttError::ContentDisposition => "missing or unreadable content-disposition"@,
        DropmuttError::MissingFieldName => "part carries no field name"@,
        DropmuttError::MissingFilename => "file part carries no filename"@,
        DropmuttError::InvalidFieldName => "malformed field name"@,
        DropmuttError::ContentType => "request was made with bad Content-Type header"@,
        DropmuttError::FormSize => "text field too large"@,
        DropmuttError::FormCount => "too many text fields"@,
        DropmuttError::FileCount => "too many file parts"@,
        DropmuttError::Utf8 => "text field is not valid UTF-8"@,
        DropmuttError::ImageProcessing => "error processing image"@,
        DropmuttError::Io => "error reading or writing a stored file"@,
        DropmuttError::Login => "failed to log in user"@,
        DropmuttError::Bcrypt => "error in bcrypt"@,
    }
}

/// Client-facing body listing the messages for a failed request.
pub struct DropmutErrorResponse {
    pub errors: Vec<String>,
}

impl DropmutErrorResponse {
    pub fn new(errors: Vec<String>) -> (r: Self)
        ensures
            r.errors == errors,
    {
        DropmutErrorResponse { errors }
    }
}

} // verus!
