//! The errors of a synchronisation cycle.
use vstd::prelude::*;

verus! {

/// Why a file, a pair or the whole run failed.
#[derive(Debug, Clone, PartialEq, Eq)]
pub enum SyncError {
    /// The configuration could not be loaded or parsed.
    Config(String),
    /// An HTTP request failed, timed out or was reset.
    Network(String),
    /// A metadata document was malformed or of an unexpected kind.
    Decode(String),
    /// A payload is neither gzip nor XML.
    IncompatibleFiletype,
    /// A downloaded file does not have its declared size.
    SizeMismatch { expected: u64, actual: u64 },
    /// A downloaded file does not have its declared checksum.
    ChecksumMismatch,
    /// A file system operation failed.
    Filesystem(String),
    /// The repository index lists no `primary` document.
    MissingPrimary,
    /// A checksum names an algorithm that is not supported.
    UnknownAlgorithm(String),
    /// The cryptographic library could not compute a digest of a supported
    /// algorithm.
    DigestFailed(String),
}

impl SyncError {
    /// Whether the error is a size or checksum mismatch.
    pub fn is_integrity(&self) -> (r: bool)
        ensures
            r == (self is SizeMismatch || self is ChecksumMismatch),
    {
        match self {
            SyncError::SizeMismatch { .. } | SyncError::ChecksumMismatch => true,
            _ => false,
        }
    }
}

} // verus!
