//! Errors of slicing and of building a string from bytes.
use vstd::prelude::*;

verus! {

/// Why a byte range cannot be taken as a slice of a string.
#[derive(Clone, Copy, Debug, PartialEq, Eq, Structural)]
pub enum SliceError {
    /// The start of the range lies behind the end of the string.
    StartOutOfBounds,
    /// The end of the range lies behind the end of the string.
    EndOutOfBounds,
    /// The end of the range lies before its start.
    EndBeforeStart,
    /// The start of the range falls inside a multi-byte character.
    StartNotAligned,
    /// The end of the range falls inside a multi-byte character.
    EndNotAligned,
}

impl SliceError {
    /// A short description of the error.
    pub fn message(&self) -> (r: &'static str)
        ensures
            r@ == self.message_spec(),
    {
        match self {
            SliceError::StartOutOfBounds => "start offset out of bounds",
            SliceError::EndOutOfBounds => "end offset out of bounds",
            SliceError::EndBeforeStart => "end offset before start offset",
            SliceError::StartNotAligned => "start offset in multibyte UTF-8 sequence",
            SliceError::EndNotAligned => "end offset in multibyte UTF-8 sequence",
        }
    }

    /// The text that [`message`](SliceError::message) returns.
    pub open spec fn message_spec(&self) -> Seq<char> {
        match self {
            SliceError::StartOutOfBounds => "start offset out of bounds"@,
            SliceError::EndOutOfBounds => "end offset out of bounds"@,
            SliceError::EndBeforeStart => "end offset before start offset"@,
            SliceError::StartNotAligned => "start offset in multibyte UTF-8 sequence"@,
            SliceError::EndNotAligned => "end offset in multibyte UTF-8 sequence"@,
        }
    }
}

/// The bytes handed to [`ImString::from_utf8`](crate::string::ImString::from_utf8)
/// were not valid UTF-8.
#[derive(Debug, PartialEq, Eq)]
pub struct FromUtf8Error {
    /// Length of the longest prefix of `bytes` that is valid UTF-8.
    pub valid_up_to: usize,
    /// The bytes that were rejected.
    pub bytes: Vec<u8>,
}

impl FromUtf8Error {
    /// Offset of the first byte that is not part of valid UTF-8.
    pub fn valid_up_to(&self) -> (r: usize)
        ensures
            r == self.valid_up_to,
    {
        self.valid_up_to
    }

    /// The rejected bytes, for another attempt.
    pub fn into_bytes(self) -> (r: Vec<u8>)
        ensures
            r == self.bytes,
    {
        self.bytes
    }
}

} // verus!
