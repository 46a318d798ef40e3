use vstd::prelude::*;
use vstd::string::StringExecFns;

verus! {

/// Everything that can go wrong while reading or editing a PNG byte stream.
#[derive(Clone, Copy, Debug, PartialEq, Eq, Structural)]
pub enum Errors {
    /// Four candidate type bytes contain a byte that is not an ASCII letter.
    InvalidChunkType,
    /// The buffer ends before the format says it may.
    TruncatedInput,
    /// The buffer does not begin with the PNG signature.
    BadSignature,
    /// A chunk's stored checksum differs from the one computed over its
    /// type and payload.
    ChecksumMismatch,
    /// No chunk of the requested type is present.
    ChunkNotFound,
    /// A chunk payload was requested as text but is not valid UTF-8.
    InvalidText,
}

impl Errors {
    /// What went wrong, in words.
    pub open spec fn text(self) -> Seq<char> {
        match self {
            Errors::InvalidChunkType => "PNG error: \"Chunk type is invalid\""@,
            Errors::TruncatedInput => "PNG error: \"Value is invalid\""@,
            Errors::BadSignature => "PNG error: \"Header is invalid\""@,
            Errors::ChecksumMismatch => "PNG error: \"Crc is invalid\""@,
            Errors::ChunkNotFound => "PNG error: \"Chunk not found\""@,
            Errors::InvalidText => "PNG error: \"Data is not valid UTF-8\""@,
        }
    }

    /// What went wrong, in words.
    pub fn to_text(&self) -> (r: String)
        ensures
            r@ == self.text(),
    {
        match self {
            Errors::InvalidChunkType => String::from_str("PNG error: \"Chunk type is invalid\""),
            Errors::TruncatedInput => String::from_str("PNG error: \"Value is invalid\""),
            Errors::BadSignature => String::from_str("PNG error: \"Header is invalid\""),
            Errors::ChecksumMismatch => String::from_str("PNG error: \"Crc is invalid\""),
            Errors::ChunkNotFound => String::from_str("PNG error: \"Chunk not found\""),
            Errors::InvalidText => String::from_str("PNG error: \"Data is not valid UTF-8\""),
        }
    }
}

} // verus!
