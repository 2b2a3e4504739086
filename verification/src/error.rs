//! The failures that the codec reports.

use vstd::prelude::*;
use vstd::string::*;

verus! {

/// Why an operation of the codec failed.
#[derive(Debug, Clone, Copy, PartialEq, Eq, Structural)]
pub enum Error {
    /// The buffer does not start with the container signature.
    BadSignature,
    /// A chunk's declared length does not match the bytes that are there.
    TruncatedOrOversizedChunk,
    /// A byte of a type code is not an ASCII letter.
    InvalidChunkTypeBytes,
    /// A type code given as text does not have exactly four characters.
    WrongLength,
    /// The checksum stored with a chunk is not the checksum of its contents.
    CrcMismatch,
    /// The container holds no chunk of the requested type.
    ChunkNotFound,
    /// A payload is not valid UTF-8; `position` is the length of its longest
    /// valid prefix, which is the index of the first offending byte.
    EncodingError { position: usize },
}

/// What an error says, in words.
pub open spec fn message(e: Error) -> Seq<char> {
    match e {
        Error::BadSignature => "the buffer does not start with the PNG signature"@,
        Error::TruncatedOrOversizedChunk => "a chunk's length does not match its bytes"@,
        Error::InvalidChunkTypeBytes => "a chunk type holds a byte that is no ASCII letter"@,
        Error::WrongLength => "a chunk type must have exactly four characters"@,
        Error::CrcMismatch => "a chunk's checksum does not match its contents"@,
        Error::ChunkNotFound => "no chunk of the requested type"@,
        Error::EncodingError { .. } => "a chunk's payload is not valid UTF-8"@,
    }
}

impl Error {
    /// The error in words, for showing it to a person.
    pub fn to_string(&self) -> (r: String)
        ensures
            r@ == message(*self),
    {
        match self {
            Error::BadSignature => "the buffer does not start with the PNG signature".to_owned(),
            Error::TruncatedOrOversizedChunk => "a chunk's length does not match its bytes"
                .to_owned(),
            Error::InvalidChunkTypeBytes => "a chunk type holds a byte that is no ASCII letter"
                .to_owned(),
            Error::WrongLength => "a chunk type must have exactly four characters".to_owned(),
            Error::CrcMismatch => "a chunk's checksum does not match its contents".to_owned(),
            Error::ChunkNotFound => "no chunk of the requested type".to_owned(),
            Error::EncodingError { .. } => "a chunk's payload is not valid UTF-8".to_owned(),
        }
    }
}

} // verus!
