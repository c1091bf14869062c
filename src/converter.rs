//! Conversion of clipboard payloads between the wire formats and local text.

use vstd::prelude::*;
use vstd::utf8::{encode_utf8, valid_utf8, is_char_boundary};
use crate::cf_html::{bytes_of, cf_html_bytes, header_value, build_cf_html, parse_header_value};
use crate::error::{ClipboardError, ClipboardResult, format_error};
use crate::utf16::{
    utf16_encode, utf16_valid, le_units, units_le, read_units, decode_utf16_units, chars_of,
    encode_chars, push_units, utf8_str,
};

verus! {

/// The size ceiling of a converter made by [`FormatConverter::new`]: 16 MiB.
pub const DEFAULT_MAX_SIZE: usize = 16777216;

/// Converts clipboard payloads, refusing those larger than a byte ceiling.
#[derive(Debug, Default)]
pub struct FormatConverter {
    /// The largest payload accepted, in bytes.
    pub max_size: usize,
}

/// The wire bytes of Unicode text: its UTF-16LE encoding and a two-byte terminator.
pub open spec fn text_wire(s: Seq<char>) -> Seq<u8> {
    units_le(utf16_encode(s)) + seq![0u8, 0u8]
}

/// Code units without one trailing zero unit, if there is one.
pub open spec fn strip_null(u: Seq<u16>) -> Seq<u16> {
    if u.len() > 0 && u.last() == 0 {
        u.drop_last()
    } else {
        u
    }
}

/// The bytes of the `StartFragment:` key.
pub open spec fn start_key() -> Seq<u8> {
    bytes_of("StartFragment:")
}

/// The bytes of the `EndFragment:` key.
pub open spec fn end_key() -> Seq<u8> {
    bytes_of("EndFragment:")
}

/// The fragment offsets of a CF_HTML buffer delimit a piece of its text.
pub open spec fn cf_html_offsets_ok(b: Seq<u8>) -> bool {
    match (header_value(b, start_key()), header_value(b, end_key())) {
        (Some(s), Some(e)) => s < e && e <= b.len() && is_char_boundary(b, e as int)
            && is_char_boundary(b.subrange(0, e as int), s as int),
        _ => false,
    }
}

impl FormatConverter {
    /// A converter with a 16 MiB ceiling.
    pub fn new() -> (r: Self)
        ensures
            r.max_size == DEFAULT_MAX_SIZE,
    {
        FormatConverter { max_size: DEFAULT_MAX_SIZE }
    }

    /// A converter with the given ceiling.
    pub fn with_max_size(max_size: usize) -> (r: Self)
        ensures
            r.max_size == max_size,
    {
        FormatConverter { max_size }
    }

    /// Encodes text as null-terminated UTF-16LE.
    pub fn text_to_unicode(&self, text: &str) -> (r: ClipboardResult<Vec<u8>>)
        ensures
            encode_utf8(text@).len() > self.max_size ==> r == Err::<Vec<u8>, ClipboardError>(
                ClipboardError::DataSizeExceeded {
                    actual: encode_utf8(text@).len() as usize,
                    max: self.max_size,
                },
            ),
            encode_utf8(text@).len() <= self.max_size ==> (r matches Ok(v) && v@ == text_wire(
                text@,
            )),
    {
        let len = text.as_bytes().len();
        if len > self.max_size {
            return Err(ClipboardError::DataSizeExceeded { actual: len, max: self.max_size });
        }
        let cs = chars_of(text);
        let units = encode_chars(cs.as_slice());
        let mut result: Vec<u8> = Vec::new();
        push_units(&mut result, units.as_slice());
        result.push(0u8);
        result.push(0u8);
        assert(result@ =~= text_wire(text@));
        Ok(result)
    }

    /// Decodes UTF-16LE text, dropping one trailing null code unit if there is one.
    pub fn unicode_to_text(&self, data: &[u8]) -> (r: ClipboardResult<String>)
        ensures
            data@.len() > self.max_size ==> r == Err::<String, ClipboardError>(
                ClipboardError::DataSizeExceeded { actual: data@.len() as usize, max: self.max_size },
            ),
            data@.len() <= self.max_size && data@.len() % 2 != 0 ==> r == Err::<
                String,
                ClipboardError,
            >(ClipboardError::InvalidUtf16),
            data@.len() <= self.max_size && data@.len() % 2 == 0 ==> {
                &&& r is Ok <==> utf16_valid(strip_null(le_units(data@)))
                &&& r is Err ==> r == Err::<String, ClipboardError>(ClipboardError::InvalidUtf16)
            },
            r matches Ok(s) ==> utf16_encode(s@) == strip_null(le_units(data@)),
    {
        if data.len() > self.max_size {
            return Err(ClipboardError::DataSizeExceeded { actual: data.len(), max: self.max_size });
        }
        if data.len() % 2 != 0 {
            return Err(ClipboardError::InvalidUtf16);
        }
        let mut units = read_units(data, 0, data.len() / 2);
        assert(data@.subrange(0, 2 * (data@.len() / 2) as int) =~= data@);
        if units.len() > 0 && units[units.len() - 1] == 0 {
            units.pop();
            assert(units@ =~= strip_null(le_units(data@)));
        }
        match decode_utf16_units(units.as_slice()) {
            Some(s) => Ok(s),
            None => Err(ClipboardError::InvalidUtf16),
        }
    }

    /// Wraps an HTML fragment in the CF_HTML layout.
    pub fn html_to_cf_html(&self, html: &str) -> (r: ClipboardResult<Vec<u8>>)
        ensures
            encode_utf8(html@).len() > self.max_size || encode_utf8(html@).len() + 161
                > usize::MAX ==> r == Err::<Vec<u8>, ClipboardError>(
                ClipboardError::DataSizeExceeded {
                    actual: encode_utf8(html@).len() as usize,
                    max: self.max_size,
                },
            ),
            encode_utf8(html@).len() <= self.max_size && encode_utf8(html@).len() + 161
                <= usize::MAX ==> (r matches Ok(v) && v@ == cf_html_bytes(encode_utf8(html@))),
    {
        let len = html.as_bytes().len();
        if len > self.max_size || len > usize::MAX - 161 {
            return Err(ClipboardError::DataSizeExceeded { actual: len, max: self.max_size });
        }
        Ok(build_cf_html(html))
    }

    /// Extracts the fragment of a CF_HTML buffer, as its header's offsets delimit it.
    ///
    /// The offsets come from the first lines starting with `StartFragment:` and `EndFragment:`;
    /// offsets that are missing, out of order, past the end, or inside a character are rejected.
    pub fn cf_html_to_html(&self, data: &[u8]) -> (r: ClipboardResult<String>)
        ensures
            !valid_utf8(data@) ==> r == Err::<String, ClipboardError>(ClipboardError::InvalidUtf8),
            valid_utf8(data@) && !cf_html_offsets_ok(data@) ==> r matches Err(
                ClipboardError::FormatConversion(_),
            ),
            valid_utf8(data@) && cf_html_offsets_ok(data@) ==> (r matches Ok(s) && encode_utf8(s@)
                == data@.subrange(
                header_value(data@, start_key())->0 as int,
                header_value(data@, end_key())->0 as int,
            )),
    {
        broadcast use vstd::utf8::decode_utf8_encode_utf8;

        let text = match utf8_str(data) {
            Some(t) => t,
            None => {
                return Err(ClipboardError::InvalidUtf8);
            },
        };
        assert(encode_utf8(text@) == data@);
        let start_fragment = match parse_header_value(data, "StartFragment:".as_bytes()) {
            Some(v) => v,
            None => {
                return Err(format_error("missing StartFragment: header"));
            },
        };
        let end_fragment = match parse_header_value(data, "EndFragment:".as_bytes()) {
            Some(v) => v,
            None => {
                return Err(format_error("missing EndFragment: header"));
            },
        };
        if start_fragment >= end_fragment || end_fragment > data.len() {
            return Err(format_error("invalid CF_HTML offsets"));
        }
        if !text.is_char_boundary(end_fragment) {
            return Err(format_error("CF_HTML end offset splits a character"));
        }
        let (head, _) = text.split_at(end_fragment);
        if !head.is_char_boundary(start_fragment) {
            return Err(format_error("CF_HTML start offset splits a character"));
        }
        let (_, fragment) = head.split_at(start_fragment);
        Ok(fragment.to_owned())
    }
}

} // verus!
