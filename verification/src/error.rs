use vstd::prelude::*;

use crate::text::{spec_u64_string, u64_to_string};

verus! {

/// Everything that can go wrong while serving an upload or download request.
/// Variants carry exactly what the caller-visible response needs.
#[derive(Debug, Clone)]
pub enum UploadError {
    InternalServerError,
    /// The user tried to download a file that does not exist
    FileNotExists,
    /// The filename does include invalid characters
    InvalidFilename,
    /// The user tried to upload a file that is bigger than the allowed maximum
    FileIsTooBig(u64),
    /// The request body is invalid (e.g. empty)
    InvalidBody,
    /// The `Content-Length` header announced more bytes than actually received
    IncompleteUpload(u64, u64),
    /// Invalid authorization; carries the auth scheme to challenge with
    InvalidAuth(String),
    /// A file data header value is invalid; carries the name of the header
    InvalidFileDataArgument(String),
}

/// Mathematical image of an `UploadError`: strings become character sequences,
/// so contracts can pin payloads down exactly.
pub enum ErrorView {
    InternalServerError,
    FileNotExists,
    InvalidFilename,
    FileIsTooBig(u64),
    InvalidBody,
    IncompleteUpload(u64, u64),
    InvalidAuth(Seq<char>),
    InvalidFileDataArgument(Seq<char>),
}

impl View for UploadError {
    type V = ErrorView;

    open spec fn view(&self) -> ErrorView {
        match self {
            UploadError::InternalServerError => ErrorView::InternalServerError,
            UploadError::FileNotExists => ErrorView::FileNotExists,
            UploadError::InvalidFilename => ErrorView::InvalidFilename,
            UploadError::FileIsTooBig(max) => ErrorView::FileIsTooBig(*max),
            UploadError::InvalidBody => ErrorView::InvalidBody,
            UploadError::IncompleteUpload(announced, actual) => ErrorView::IncompleteUpload(
                *announced,
                *actual,
            ),
            UploadError::InvalidAuth(scheme) => ErrorView::InvalidAuth(scheme@),
            UploadError::InvalidFileDataArgument(header) => ErrorView::InvalidFileDataArgument(
                header@,
            ),
        }
    }
}

/// The HTTP status code each error is reported with.
pub open spec fn spec_status_code(e: ErrorView) -> u16 {
    match e {
        ErrorView::InternalServerError => 500,
        ErrorView::FileNotExists => 404,
        ErrorView::InvalidFilename => 400,
        ErrorView::FileIsTooBig(_) => 400,
        ErrorView::InvalidBody => 502,
        ErrorView::IncompleteUpload(_, _) => 400,
        ErrorView::InvalidAuth(_) => 401,
        ErrorView::InvalidFileDataArgument(_) => 400,
    }
}

/// The text the caller is shown for each error.
pub open spec fn spec_body_message(e: ErrorView) -> Seq<char> {
    match e {
        ErrorView::InternalServerError => "Internal Server Error"@,
        ErrorView::FileNotExists => "File does not exist"@,
        ErrorView::InvalidFilename => "Invalid filename"@,
        ErrorView::FileIsTooBig(max_filesize) => "The file you tried to upload is too big. The maximum filesize is "@
            + spec_u64_string(max_filesize as nat) + " bytes."@,
        ErrorView::InvalidBody => "Invalid POST body"@,
        ErrorView::IncompleteUpload(announced, actual) => "Incomplete upload. You announced "@
            + spec_u64_string(announced as nat)
            + " bytes (content of Content-Length header) but only sent "@ + spec_u64_string(
            actual as nat,
        ) + " bytes."@,
        ErrorView::InvalidAuth(_) => "Unauthorized"@,
        ErrorView::InvalidFileDataArgument(header) => "Invalid file data header '"@ + header
            + "'"@,
    }
}

impl UploadError {
    /// The HTTP status code this error is reported with.
    pub fn status_code(&self) -> (code: u16)
        ensures
            code == spec_status_code(self@),
    {
        match self {
            UploadError::InternalServerError => 500,
            UploadError::FileNotExists => 404,
            UploadError::InvalidFilename => 400,
            UploadError::FileIsTooBig(_) => 400,
            UploadError::InvalidBody => 502,
            UploadError::IncompleteUpload(_, _) => 400,
            UploadError::InvalidAuth(_) => 401,
            UploadError::InvalidFileDataArgument(_) => 400,
        }
    }

    /// The text the caller is shown for this error.
    pub fn body_message(&self) -> (msg: String)
        ensures
            msg@ == spec_body_message(self@),
    {
        match self {
            UploadError::InternalServerError => String::from_str("Internal Server Error"),
            UploadError::FileNotExists => String::from_str("File does not exist"),
            UploadError::InvalidFilename => String::from_str("Invalid filename"),
            UploadError::FileIsTooBig(max_filesize) => {
                let mut msg = String::from_str(
                    "The file you tried to upload is too big. The maximum filesize is ",
                );
                let digits = u64_to_string(*max_filesize);
                msg.append(digits.as_str());
                msg.append(" bytes.");
                msg
            }
            UploadError::InvalidBody => String::from_str("Invalid POST body"),
            UploadError::IncompleteUpload(announced, actual) => {
                let mut msg = String::from_str("Incomplete upload. You announced ");
                let announced_digits = u64_to_string(*announced);
                msg.append(announced_digits.as_str());
                msg.append(" bytes (content of Content-Length header) but only sent ");
                let actual_digits = u64_to_string(*actual);
                msg.append(actual_digits.as_str());
                msg.append(" bytes.");
                msg
            }
            UploadError::InvalidAuth(_) => String::from_str("Unauthorized"),
            UploadError::InvalidFileDataArgument(header) => {
                let mut msg = String::from_str("Invalid file data header '");
                msg.append(header.as_str());
                msg.append("'");
                msg
            }
        }
    }

    /// The scheme to challenge the caller with, present exactly on auth failures.
    pub fn challenge_scheme(&self) -> (scheme: Option<&String>)
        ensures
            match self@ {
                ErrorView::InvalidAuth(s) => scheme matches Some(v) && v@ == s,
                _ => scheme is None,
            },
    {
        match self {
            UploadError::InvalidAuth(scheme) => Some(scheme),
            _ => None,
        }
    }
}

} // verus!
