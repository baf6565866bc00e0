//! Codecs for the binary save and resource formats of a legacy game pair:
//! a bounds-checked little-endian byte cursor, codable primitives and
//! composites with proved round-trip laws, a registry that resolves file
//! names to schemas and round-trips typed documents through an external
//! tagged representation, and the archive container with its obfuscated
//! path table.

use vstd::prelude::*;

pub mod buffer;
pub mod types;

verus! {

/// Why a decode, encode or archive operation failed.
#[derive(Clone, Copy, Debug, PartialEq, Eq, Structural)]
pub enum DecodeError {
    /// Fewer bytes remained in the cursor than a read required.
    Truncated,
    /// A string field held bytes that are not valid UTF-8.
    InvalidUtf8,
    /// A field held a value that its format does not allow.
    Malformed,
    /// Bytes remained after a whole file was decoded.
    TrailingData,
    /// No file-name, extension or stem rule matched.
    UnknownFormat,
    /// The schema tag of an external representation named no known schema.
    UnknownTag,
    /// An archive entry's offset plus size exceeds the archive length.
    OutOfBounds,
}

} // verus!
