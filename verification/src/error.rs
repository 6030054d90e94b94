//! Error kinds reported by the core, and the wire-level error body.

use vstd::prelude::*;

verus! {

/// The outcome kinds of a failed core operation.
///
/// `BadRequest*` variants are caused by the client and say which validation
/// failed; `Unauthorized` and `Forbidden` report ownership or feature-switch
/// violations; `Internal` covers store, filesystem, classification and
/// record-decoding failures.
#[derive(Clone, Copy, PartialEq, Eq, Structural, Debug)]
pub enum ApiError {
    /// The display name exceeds the configured maximum length.
    BadRequestNameLength,
    /// The owner already holds the configured maximum number of uploads.
    BadRequestUploadQuota,
    /// The payload exceeds the configured per-upload size limit.
    BadRequestSizeLimit,
    /// Storing the payload would exceed the configured total size ceiling.
    BadRequestTotalSizeLimit,
    /// The caller is not allowed to perform the operation.
    Unauthorized,
    /// The operation is disabled on this instance.
    Forbidden,
    /// A store, blob, classification or decoding failure.
    Internal,
}

/// Whether an error is client-caused and may be reported verbatim.
pub open spec fn is_bad_request(e: ApiError) -> bool {
    e == ApiError::BadRequestNameLength || e == ApiError::BadRequestUploadQuota
        || e == ApiError::BadRequestSizeLimit || e == ApiError::BadRequestTotalSizeLimit
}

/// The wire-level error body handed to the excluded HTTP layer.
#[derive(Clone, Debug)]
pub struct Error {
    pub error: String,
}

} // verus!
