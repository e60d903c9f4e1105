//! The typed error model shared by every part of the format.

use vstd::prelude::*;

verus! {

/// The I/O error type of the standard library, carried by [`DecayError::Io`].
#[verifier::external_type_specification]
#[verifier::external_body]
pub struct ExIoError(std::io::Error);

/// Every way decayfmt can refuse or fail.
///
/// Each refusal is its own variant so a caller can tell, for example, an unknown
/// extension from a missing x from an x that does not fit a `u32`.
#[derive(Debug)]
pub enum DecayError {
    /// A file system operation failed; `context` says which one.
    Io { context: String, source: std::io::Error },
    /// The file to open is read-only, so its decay could not be written back.
    ReadOnly { path: String },
    /// The filename extension is not one of the decayfmt prefixes.
    UnrecognizedExtension { extension: String },
    /// The extension has a decayfmt prefix but no decimal x after it.
    FilenameNoX { filename: String },
    /// x is zero; it must be a positive integer.
    XNotPositive { value: u32 },
    /// x is a run of digits too large for a `u32`.
    XOutOfRange { value: String },
    /// The buffer is shorter than the fixed header.
    PayloadTooSmall { found: usize, needed: usize },
    /// The first four bytes are not the decayfmt magic.
    WrongMagic { found: [u8; 4] },
    /// The version byte is not the one this build reads and writes.
    UnsupportedVersion { found: u8 },
    /// The file type byte names no known payload type.
    UnsupportedFileType { found: u8 },
    /// The filename extension and the header disagree about the payload type.
    MismatchedFileType { extension_kind: &'static str, header_kind: &'static str },
    /// A payload does not hold the number of bytes its metadata calls for.
    PayloadSizeMismatch { expected: usize, found: usize },
    /// A text source is not valid UTF-8.
    InvalidUtf8,
    /// A source image could not be decoded.
    ImageDecode { context: String },
    /// A display image could not be encoded.
    ImageEncode { context: String },
    /// A source audio file could not be decoded.
    AudioDecode { context: String },
    /// A playback audio file could not be encoded.
    AudioEncode { context: String },
    /// No generator could be seeded from operating system entropy.
    Entropy { context: String },
}

} // verus!
