//! Error values of the compression pipeline and of the container format.

use vstd::prelude::*;

verus! {

/// What can go wrong while compressing or unpacking payloads.
#[derive(Debug)]
pub enum CompressionError {
    /// An underlying read or write failed.
    Io(String),
    /// The zstd codec refused to compress or to train.
    Zstd(String),
    /// A delta patch could not be made or applied.
    Delta(String),
    /// A binary could not be parsed.
    Parse(String),
    /// The data breaks a rule of the pipeline.
    InvalidData(String),
    /// The zstd codec refused to decompress.
    Decompression(String),
}

/// What can go wrong while reading or writing a container.
#[derive(Debug)]
#[allow(inconsistent_fields)]
pub enum Error {
    /// The header does not start with `PBIN`; holds the four bytes found.
    InvalidMagic([u8; 4]),
    /// The header names a format version other than the current one.
    UnsupportedVersion(u16),
    /// The header names a compression kind that does not exist.
    UnknownCompression(u8),
    /// A manifest entry names a target that does not exist.
    InvalidTarget(String),
    /// The manifest holds no entry for the target asked for.
    TargetNotFound(String),
    /// The file holds no payload marker.
    PayloadMarkerNotFound,
    /// A checksum is not what it should be.
    ChecksumMismatch { expected: String, actual: String },
    /// Fewer bytes than a header has.
    HeaderTooShort { expected: usize, actual: usize },
    /// An underlying read or write failed.
    Io(String),
    /// The manifest is not the JSON that it should be.
    Json(String),
    /// The running host is not a supported target.
    UnsupportedPlatform,
    /// A payload could not be unpacked.
    Compression(CompressionError),
}

/// The error type of `std::io`, which the codecs report their failures with.
#[verifier::external_type_specification]
#[verifier::external_body]
pub struct ExIoError(std::io::Error);

/// The `Display` form of a `std::io::Error`, through `format!`. Nothing is
/// claimed of the text.
#[verifier::external_body]
pub(crate) fn io_error_text(e: &std::io::Error) -> (text: String) {
    format!("{}", e)
}

} // verus!
