//! Error type for volume-store operations.

use vstd::prelude::*;

verus! {

/// Error raised by volume-store operations.
///
/// Storage failures are carried as their message text; the embedding
/// application converts the underlying I/O or serialization errors into these
/// variants at the boundary where they occur.
#[derive(Debug, Clone)]
pub enum VdsError {
    /// I/O error, by message
    Io(String),
    /// Malformed volume data
    InvalidFormat(String),
    /// Unsupported format version (major mismatch)
    UnsupportedVersion(u32),
    /// Compression failure
    Compression(String),
    /// Decompression failure
    Decompression(String),
    /// Shape mismatch, degenerate slice, or dimensionality out of range
    InvalidDimensions(String),
    /// Coordinates outside the volume bounds
    OutOfBounds(String),
    /// Storage backend failure
    StorageBackend(String),
    /// Metadata read or parse failure
    Metadata(String),
    /// Serialization failure
    Serialization(String),
    /// Missing required field
    MissingField(String),
    /// Invalid element data type
    InvalidDataType,
    /// Invalid axis index
    InvalidAxis(usize),
    /// Cache failure
    Cache(String),
    /// Path not found
    NotFound(String),
    /// Path already exists
    AlreadyExists(String),
    /// Permission denied
    PermissionDenied(String),
    /// Network failure
    Network(String),
    /// Operation timed out
    Timeout(String),
    /// Unparsable URL or unknown scheme
    InvalidUrl(String),
    /// Configuration error, e.g. an unimplemented backend
    Configuration(String),
}

} // verus!
