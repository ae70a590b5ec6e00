use vstd::prelude::*;

verus! {

/// The kind of a stream failure encountered while reading framed input.
#[derive(Clone, Copy, Debug, PartialEq, Eq, Structural)]
pub enum IoErrorKind {
    /// The input ended although the format promised more bytes.
    UnexpectedEof,
    /// Any other failure of the underlying stream.
    Other,
}

/// Every way a PBF file can fail to parse or to be written.
///
/// The variants are disjoint: `Eof` is the clean end of input seen at the
/// start of a frame, while a truncation inside a frame is `Io`.
#[derive(Clone, Copy, Debug, PartialEq, Eq, Structural)]
pub enum PbfParseError {
    /// The underlying stream failed.
    Io(IoErrorKind),
    /// Clean end of input: no byte of a further frame was present.
    Eof,
    /// A frame declared a `BlobHeader` length of 64 KiB or more.
    InvalidHeaderLength(u32),
    /// A `BlobHeader` declared a body of more than 32 MiB.
    InvalidBodyLength(u32),
    /// A protobuf message could not be decoded.
    InvalidMessage,
    /// A blob carried no payload in any supported compression variant.
    InvalidBlobFormat,
    /// A blob header carried an unknown type string.
    InvalidBlobType,
}

impl PbfParseError {
    /// A short description, for reporting outside the library.
    pub fn describe(&self) -> (r: &'static str) {
        match self {
            PbfParseError::Io(IoErrorKind::UnexpectedEof) => "unexpected end of input",
            PbfParseError::Io(IoErrorKind::Other) => "stream failure",
            PbfParseError::Eof => "end of input",
            PbfParseError::InvalidHeaderLength(_) => "blob header length out of bounds",
            PbfParseError::InvalidBodyLength(_) => "blob body length out of bounds",
            PbfParseError::InvalidMessage => "malformed protobuf message",
            PbfParseError::InvalidBlobFormat => "unsupported blob compression",
            PbfParseError::InvalidBlobType => "unknown blob type",
        }
    }
}

} // verus!
