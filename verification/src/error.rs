//! Errors of the library.

use vstd::prelude::*;

verus! {

/// Why a stream could not be read, or why its metadata could not be written.
#[derive(Debug, Clone, Copy, PartialEq, Eq, Structural)]
pub enum Av1Error {
    /// The input ends inside an OBU, a frame or a file header.
    UnexpectedEof,
    /// The forbidden bit of an OBU header is set.
    ForbiddenBit { byte: u8 },
    /// An OBU has no size field; only the Low Overhead Bitstream Format is
    /// supported.
    NoSizeField { obu_type: u8 },
    /// The size field of an OBU does not end within eight bytes.
    Leb128Overflow,
    /// A bit-level read or write failed.
    Bitstream,
    /// A JSON entry does not describe HDR10+ metadata.
    InvalidJson,
    /// HDR10+ metadata does not conform to a profile.
    InvalidMetadata,
    /// An encoded metadata OBU is longer than a `u32` can count.
    ObuTooLarge { len: usize },
    /// The list of metadata to inject is empty.
    EmptySceneInfo,
    /// No metadata is at hand for a temporal unit.
    NoMetadataForUnit { tu_index: usize },
}

/// What a check for dynamic metadata reports.
#[derive(Debug, Clone, Copy, PartialEq, Eq, Structural)]
pub enum ParserError {
    NoMetadataFound,
    MetadataDetected,
}

impl ParserError {
    /// The text shown to the user.
    pub fn message(&self) -> (text: &'static str)
        ensures
            text@ == (match *self {
                ParserError::NoMetadataFound => "File doesn't contain dynamic metadata"@,
                ParserError::MetadataDetected => "Dynamic HDR10+ metadata detected."@,
            }),
    {
        match self {
            ParserError::NoMetadataFound => "File doesn't contain dynamic metadata",
            ParserError::MetadataDetected => "Dynamic HDR10+ metadata detected.",
        }
    }
}

} // verus!
