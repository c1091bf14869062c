//! Errors reported by the clipboard codecs.

use vstd::prelude::*;

verus! {

/// Why a clipboard payload could not be converted.
#[derive(Debug, Clone, PartialEq, Eq)]
pub enum ClipboardError {
    /// The payload is larger than the converter accepts.
    DataSizeExceeded { actual: usize, max: usize },
    /// The payload is not valid UTF-16.
    InvalidUtf16,
    /// The payload is not valid UTF-8.
    InvalidUtf8,
    /// A binary layout was violated: too short, bad offsets or bad counts.
    FormatConversion(String),
    /// A bitmap could not be decoded.
    ImageDecode(String),
    /// A bitmap could not be encoded.
    ImageEncode(String),
}

/// The result of a clipboard conversion.
pub type ClipboardResult<T> = Result<T, ClipboardError>;

/// A `FormatConversion` error carrying `msg`.
pub fn format_error(msg: &str) -> (e: ClipboardError)
    ensures
        e matches ClipboardError::FormatConversion(m) && m@ == msg@,
{
    ClipboardError::FormatConversion(msg.to_owned())
}

/// An `ImageDecode` error carrying `msg`.
pub fn decode_error(msg: &str) -> (e: ClipboardError)
    ensures
        e matches ClipboardError::ImageDecode(m) && m@ == msg@,
{
    ClipboardError::ImageDecode(msg.to_owned())
}

} // verus!
