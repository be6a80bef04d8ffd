//! Shared payload types and the failure taxonomy of the archive core.

use vstd::prelude::*;

verus! {

/// HTTP status reported when an operation succeeds.
pub const STATUS_OK: u16 = 200;

/// HTTP status reported when the requested filename is absent, and for
/// requests that match no route.
pub const STATUS_NOT_FOUND: u16 = 404;

/// HTTP status reported for storage failures and malformed uploads.
pub const STATUS_INTERNAL_ERROR: u16 = 500;

/// Error payload returned on failure paths: a human message and an error string.
#[derive(Debug)]
pub struct ResponseError {
    pub message: String,
    pub error: String,
}

/// Body of a successful listing: the filenames present in the archive.
#[derive(Debug)]
pub struct ArchiveResponse {
    pub files: Vec<String>,
}

/// A file as a client declares it in a structured request body.
#[derive(Debug)]
pub struct File {
    pub filetype: String,
    pub contents: String,
}

/// Wrapper a client uses to submit a single `File`.
#[derive(Debug)]
pub struct FileUpload {
    pub file: File,
}

/// The ways an archive operation can fail.
#[derive(Debug, Clone, Copy, PartialEq, Eq, Structural)]
pub enum ArchiveError {
    /// The requested filename was absent at check time.
    NotFound,
    /// Creating, opening, reading, writing or enumerating storage failed.
    IoError,
    /// An upload field arrived without a filename.
    BadRequest,
}

/// The HTTP status that each failure surfaces as: an absent file is reported
/// as not found, every other failure as an internal error.
pub open spec fn spec_status_of_error(e: ArchiveError) -> u16 {
    match e {
        ArchiveError::NotFound => STATUS_NOT_FOUND,
        ArchiveError::IoError => STATUS_INTERNAL_ERROR,
        ArchiveError::BadRequest => STATUS_INTERNAL_ERROR,
    }
}

/// Map a core failure to the HTTP status the transport reports for it.
pub fn status_of_error(e: ArchiveError) -> (status: u16)
    ensures
        status == spec_status_of_error(e),
{
    match e {
        ArchiveError::NotFound => STATUS_NOT_FOUND,
        ArchiveError::IoError => STATUS_INTERNAL_ERROR,
        ArchiveError::BadRequest => STATUS_INTERNAL_ERROR,
    }
}

} // verus!
