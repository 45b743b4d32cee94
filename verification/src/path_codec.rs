//! Path segments as typed by a user: `%XX` escapes stand for bytes, so that a segment can
//! hold a `/` (`%2F`). The decoding itself is the `percent-encoding` crate's.

use vstd::prelude::*;
use vstd::utf8::*;
use vstd::string::*;

verus! {

/// `b` is an ASCII hexadecimal digit.
pub open spec fn is_hex_digit(b: u8) -> bool {
    (0x30 <= b <= 0x39) || (0x41 <= b <= 0x46) || (0x61 <= b <= 0x66)
}

/// The value of a hexadecimal digit.
pub open spec fn hex_value(b: u8) -> int {
    if b <= 0x39 {
        b - 0x30
    } else if b <= 0x46 {
        b - 0x41 + 10
    } else {
        b - 0x61 + 10
    }
}

/// Percent-decoding of bytes: every `%` followed by two hexadecimal digits becomes the byte
/// they spell; every other byte is kept.
pub open spec fn percent_decode_bytes(b: Seq<u8>) -> Seq<u8>
    decreases b.len(),
{
    if b.len() == 0 {
        Seq::empty()
    } else if b[0] == 0x25u8 && b.len() >= 3 && is_hex_digit(b[1]) && is_hex_digit(b[2]) {
        seq![(hex_value(b[1]) * 16 + hex_value(b[2])) as u8] + percent_decode_bytes(b.skip(3))
    } else {
        seq![b[0]] + percent_decode_bytes(b.skip(1))
    }
}

/// The text that the percent-decoded bytes of `s` spell, when they are valid UTF-8.
pub open spec fn decode_segment(s: Seq<char>) -> Option<Seq<char>> {
    let bytes = percent_decode_bytes(encode_utf8(s));
    if valid_utf8(bytes) {
        Some(decode_utf8(bytes))
    } else {
        None
    }
}

/// `percent_encoding::percent_decode_str(s).decode_utf8()`: the decoded text, or nothing when
/// the decoded bytes are not valid UTF-8.
#[verifier::external_body]
pub(crate) fn percent_decode_utf8(s: &str) -> (r: Option<String>)
    ensures
        match r {
            Some(t) => decode_segment(s@) == Some(t@),
            None => decode_segment(s@) is None,
        },
{
    match percent_encoding::percent_decode_str(s).decode_utf8() {
        Ok(text) => Some(text.into_owned()),
        Err(_) => None,
    }
}

/// A path segment whose escapes do not decode to text.
#[derive(Debug)]
pub struct InvalidSegment {
    pub segment: String,
}

/// Decodes the escapes of a typed path segment.
pub fn decode_path_segment_input(segment: &str) -> (r: Result<String, InvalidSegment>)
    ensures
        match r {
            Ok(t) => decode_segment(segment@) == Some(t@),
            Err(e) => decode_segment(segment@) is None && e.segment@ == segment@,
        },
{
    match percent_decode_utf8(segment) {
        Some(t) => Ok(t),
        None => Err(InvalidSegment { segment: String::from_str(segment) }),
    }
}

} // verus!
