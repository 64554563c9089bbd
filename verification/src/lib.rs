//! A verified reader and writer for RIFF-family chunked container files.
//!
//! A file of this family is a tree of chunks: each chunk carries a four-byte
//! identifier, a 32-bit little-endian payload length, and either raw content
//! (a leaf) or a concatenation of child chunks (a container).  The [`model`]
//! module states the wire format as specification functions and proves the
//! laws that relate encoding and parsing; [`eager`] reads an in-memory byte
//! buffer through zero-copy views; [`builder`] assembles a chunk tree and
//! serializes it back to bytes.

use vstd::prelude::*;

pub mod builder;
pub mod eager;
pub mod error;
pub mod model;

use crate::error::{RiffError, RiffResult};
use vstd::string::StringSliceAdditionalSpecFns;
use vstd::utf8::{decode_utf8, valid_utf8};

verus! {

/// The four-byte identifier that names a chunk or a container form type.
#[derive(Debug, Clone, Copy)]
pub struct FourCC {
    data: [u8; 4],
}

impl View for FourCC {
    type V = Seq<u8>;

    closed spec fn view(&self) -> Seq<u8> {
        self.data@
    }
}

/// Relies on `core::str::from_utf8`: it succeeds exactly on valid UTF-8 input
/// and decodes the bytes to their character sequence, as `vstd::utf8` models it.
#[verifier::external_body]
fn utf8_text(bytes: &[u8]) -> (r: Option<String>)
    ensures
        r is Some <==> valid_utf8(bytes@),
        r matches Some(s) ==> s@ == decode_utf8(bytes@),
{
    match core::str::from_utf8(bytes) {
        Ok(text) => Some(text.to_string()),
        Err(_) => None,
    }
}

impl FourCC {
    /// Wraps four bytes as an identifier; every four-byte value is accepted.
    pub fn new(data: &[u8; 4]) -> (r: Self)
        ensures
            r@ == data@,
    {
        FourCC { data: *data }
    }

    /// Views the identifier as its four bytes.
    pub fn as_bytes(&self) -> (r: &[u8; 4])
        ensures
            r@ == self@,
    {
        &self.data
    }

    /// Consumes the identifier and returns its four bytes.
    pub fn into_bytes(self) -> (r: [u8; 4])
        ensures
            r@ == self@,
    {
        self.data
    }

    /// Builds an identifier from text; fails exactly when the text does not
    /// encode to four bytes.
    pub fn from_text(text: &str) -> (r: RiffResult<FourCC>)
        ensures
            r is Ok <==> text.spec_bytes().len() == 4,
            r matches Ok(f) ==> f@ == text.spec_bytes(),
            r is Err ==> (r matches Err(RiffError::LengthMismatch)),
    {
        let bytes: &[u8] = text.as_bytes();
        if bytes.len() == 4 {
            let data: [u8; 4] = [bytes[0], bytes[1], bytes[2], bytes[3]];
            assert(data@ =~= bytes@);
            Ok(FourCC { data })
        } else {
            Err(RiffError::LengthMismatch)
        }
    }

    /// Views the identifier as text; fails exactly when its bytes are not
    /// valid UTF-8.
    pub fn as_text(&self) -> (r: RiffResult<String>)
        ensures
            r is Ok <==> valid_utf8(self@),
            r matches Ok(s) ==> s@ == decode_utf8(self@),
            r is Err ==> (r matches Err(RiffError::Utf8Error)),
    {
        match utf8_text(self.data.as_slice()) {
            Some(s) => Ok(s),
            None => Err(RiffError::Utf8Error),
        }
    }
}

} // verus!
