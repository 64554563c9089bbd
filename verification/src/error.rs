//! The errors that reading or building a chunked file may produce.

use vstd::prelude::*;

verus! {

/// The data found where a chunk header was expected; kept for diagnosis.
#[derive(Debug)]
pub struct ChunkTooSmall {
    pub(crate) data: Vec<u8>,
}

impl ChunkTooSmall {
    /// The bytes this diagnosis carries.
    pub closed spec fn data_bytes(&self) -> Seq<u8> {
        self.data@
    }

    /// Wraps the offending bytes for diagnosis.
    pub fn new(data: Vec<u8>) -> (r: Self)
        ensures
            r.data_bytes() == data@,
    {
        ChunkTooSmall { data }
    }
}

/// The data of a container chunk that is too short to hold its form type.
#[derive(Debug)]
pub struct ChunkTooSmallForChunkType {
    pub(crate) data: Vec<u8>,
}

impl ChunkTooSmallForChunkType {
    /// The bytes this diagnosis carries.
    pub closed spec fn data_bytes(&self) -> Seq<u8> {
        self.data@
    }

    /// Wraps the offending bytes for diagnosis.
    pub fn new(data: Vec<u8>) -> (r: Self)
        ensures
            r.data_bytes() == data@,
    {
        ChunkTooSmallForChunkType { data }
    }
}

/// The data of a chunk whose declared payload length exceeds the bytes present.
#[derive(Debug)]
pub struct PayloadLenMismatch {
    pub(crate) data: Vec<u8>,
}

impl PayloadLenMismatch {
    /// The bytes this diagnosis carries.
    pub closed spec fn data_bytes(&self) -> Seq<u8> {
        self.data@
    }

    /// Wraps the offending bytes for diagnosis.
    pub fn new(data: Vec<u8>) -> (r: Self)
        ensures
            r.data_bytes() == data@,
    {
        PayloadLenMismatch { data }
    }
}

/// Everything that can go wrong while reading or building a chunked file.
#[derive(Debug)]
pub enum RiffError {
    /// The declared payload length does not agree with the bytes available.
    PayloadLenMismatch(PayloadLenMismatch),
    /// Fewer than eight bytes stand where a chunk header was expected.
    ChunkTooSmall(ChunkTooSmall),
    /// A typed container is too small to contain its four-byte form type.
    ChunkTooSmallForChunkType(ChunkTooSmallForChunkType),
    /// The file does not begin with the `RIFF` identifier.
    InvalidRiffHeader,
    /// A child chunk was appended to a chunk that holds raw data.
    MismatchChunkAdded,
    /// Text handed to [`crate::FourCC::from_text`] does not encode to four bytes.
    LengthMismatch,
    /// The bytes of a [`crate::FourCC`] are not valid UTF-8.
    Utf8Error,
    /// An encoded size does not fit the 32-bit length field.
    SizeOverflow,
    /// The backing store failed to seek or read; only code that reads
    /// through such a store produces this.
    Io,
}

/// A convenient `Result` type.
pub type RiffResult<T> = Result<T, RiffError>;

} // verus!
