//! Encodings that plugins use: base64 (standard alphabet, padded), URL percent-encoding of
//! every byte but ASCII letters and digits, and the OSC 52 sequence that asks the terminal
//! to set the clipboard.

use vstd::prelude::*;
use vstd::utf8::*;
use crate::http::upper_hex;
use crate::path_codec::{decode_segment, hex_value, percent_decode_bytes, percent_decode_utf8};

verus! {

broadcast use vstd::seq_lib::group_seq_properties;

/// The standard, padded base64 encoding of `data` (what `base64`'s `STANDARD` engine
/// produces).
pub uninterp spec fn base64_standard(data: Seq<u8>) -> Seq<char>;

/// `base64::engine::general_purpose::STANDARD.encode`: the padded base64 text of `data`,
/// four characters for every three bytes or part of three.
#[verifier::external_body]
fn base64_encode_bytes(data: &[u8]) -> (r: String)
    requires
        data@.len() <= usize::MAX / 2,
    ensures
        r@ == base64_standard(data@),
        r@.len() == 4 * ((data@.len() + 2) / 3),
{
    base64::Engine::encode(&base64::engine::general_purpose::STANDARD, data)
}

/// `base64::engine::general_purpose::STANDARD.decode`. It accepts only canonical text (padding
/// as the encoder writes it, no stray trailing bits), so what it accepts is the encoding of
/// what it returns, and the encoding of any bytes decodes to them. On failure the error's
/// text.
#[verifier::external_body]
fn base64_decode_text(text: &str) -> (r: Result<Vec<u8>, String>)
    ensures
        match r {
            Ok(x) => base64_standard(x@) == text@ && forall|b: Seq<u8>| #[trigger] base64_standard(b) == text@ ==> b == x@,
            Err(_) => forall|b: Seq<u8>| #[trigger] base64_standard(b) != text@,
        },
{
    match base64::Engine::decode(&base64::engine::general_purpose::STANDARD, text) {
        Ok(b) => Ok(b),
        Err(e) => Err(e.to_string()),
    }
}

/// The base64 text of `data`.
pub fn base64_encode(data: &[u8]) -> (r: String)
    requires
        data@.len() <= usize::MAX / 2,
    ensures
        r@ == base64_standard(data@),
{
    base64_encode_bytes(data)
}

/// Base64 text that does not decode, with the decoder's explanation.
#[derive(Debug)]
pub struct Base64Error {
    pub detail: String,
}

impl Base64Error {
    /// The error message.
    pub fn message(&self) -> (m: String)
        ensures
            m@ == "Base64 decode error: "@ + self.detail@,
    {
        let mut m = String::from_str("Base64 decode error: ");
        m.append(self.detail.as_str());
        m
    }
}

/// The bytes that the base64 text `encoded` stands for.
pub fn base64_decode(encoded: &str) -> (r: Result<Vec<u8>, Base64Error>)
    ensures
        r matches Ok(b) ==> base64_standard(b@) == encoded@,
        forall|b: Seq<u8>| #[trigger] base64_standard(b) == encoded@ ==> (r matches Ok(x) && x@ == b),
{
    match base64_decode_text(encoded) {
        Ok(b) => Ok(b),
        Err(detail) => Err(Base64Error { detail }),
    }
}

/// The OSC 52 escape sequence that sets the clipboard to `text`.
pub open spec fn osc52_of(text: Seq<char>) -> Seq<char> {
    seq!['\x1b', ']', '5', '2', ';', 'c', ';'] + base64_standard(encode_utf8(text)) + seq!['\x07']
}

/// The escape sequence written to the terminal to set the clipboard to `text`.
pub fn osc52_sequence(text: &str) -> (r: String)
    requires
        encode_utf8(text@).len() <= usize::MAX / 2,
    ensures
        r@ == osc52_of(text@),
{
    let bytes = text.as_bytes();
    let encoded = base64_encode(bytes);
    let mut r = String::from_str("\x1b]52;c;");
    r.append(encoded.as_str());
    r.append("\x07");
    proof {
        reveal_strlit("\x1b]52;c;");
        reveal_strlit("\x07");
        assert("\x1b]52;c;"@ =~= seq!['\x1b', ']', '5', '2', ';', 'c', ';']);
        assert("\x07"@ =~= seq!['\x07']);
    }
    r
}

/// A byte that URL encoding keeps: an ASCII letter or digit.
pub open spec fn is_ascii_alnum(b: u8) -> bool {
    (0x30 <= b <= 0x39) || (0x41 <= b <= 0x5A) || (0x61 <= b <= 0x7A)
}

/// Percent-encoding of every byte but ASCII letters and digits, as `%XX` in upper-case hex.
pub open spec fn alnum_encode(b: Seq<u8>) -> Seq<char>
    decreases b.len(),
{
    if b.len() == 0 {
        Seq::empty()
    } else {
        let x = b.last();
        alnum_encode(b.drop_last()) + if is_ascii_alnum(x) {
            seq![x as char]
        } else {
            seq!['%', upper_hex(x as int / 16), upper_hex(x as int % 16)]
        }
    }
}

/// `percent_encoding::utf8_percent_encode(value, NON_ALPHANUMERIC)`: every UTF-8 byte of
/// `value` but ASCII letters and digits spelled `%XX` with upper-case digits.
#[verifier::external_body]
fn percent_encode_alnum(value: &str) -> (r: String)
    ensures
        r@ == alnum_encode(encode_utf8(value@)),
{
    percent_encoding::utf8_percent_encode(value, percent_encoding::NON_ALPHANUMERIC).to_string()
}

/// URL-encodes `value` (see `alnum_encode`).
pub fn url_encode(value: &str) -> (r: String)
    ensures
        r@ == alnum_encode(encode_utf8(value@)),
{
    percent_encode_alnum(value)
}

/// URL-decodes `value`: the text its percent-decoded bytes spell, or nothing when they are
/// not UTF-8.
pub fn url_decode(value: &str) -> (r: Option<String>)
    ensures
        match r {
            Some(t) => decode_segment(value@) == Some(t@),
            None => decode_segment(value@) is None,
        },
{
    percent_decode_utf8(value)
}

} // verus!

verus! {

/// The byte of an upper-case hexadecimal digit for `n` (below 16).
pub open spec fn upper_hex_byte(n: int) -> u8 {
    if n < 10 {
        (0x30 + n) as u8
    } else {
        (0x41 + n - 10) as u8
    }
}

/// Percent-encoding of the bytes that `escaped` picks, as `%XX` with upper-case digits;
/// other bytes stand for themselves.
pub open spec fn percent_encode_by(b: Seq<u8>, escaped: spec_fn(u8) -> bool) -> Seq<char>
    decreases b.len(),
{
    if b.len() == 0 {
        Seq::empty()
    } else {
        let x = b.last();
        percent_encode_by(b.drop_last(), escaped) + if escaped(x) {
            seq!['%', upper_hex(x as int / 16), upper_hex(x as int % 16)]
        } else {
            seq![x as char]
        }
    }
}

/// `percent_encode_by` as bytes.
pub open spec fn percent_encode_bytes_by(b: Seq<u8>, escaped: spec_fn(u8) -> bool) -> Seq<u8>
    decreases b.len(),
{
    if b.len() == 0 {
        Seq::empty()
    } else {
        let x = b.last();
        percent_encode_bytes_by(b.drop_last(), escaped) + if escaped(x) {
            seq![0x25u8, upper_hex_byte(x as int / 16), upper_hex_byte(x as int % 16)]
        } else {
            seq![x]
        }
    }
}

/// The bytes left as they are are ASCII, and `%` itself is escaped: then the encoding can
/// be decoded.
pub open spec fn decodable_set(escaped: spec_fn(u8) -> bool) -> bool {
    &&& escaped(0x25u8)
    &&& forall|x: u8| !#[trigger] escaped(x) ==> x <= 0x7F
}

/// The UTF-8 encoding of a concatenation is the concatenation of the encodings.
pub proof fn lemma_encode_utf8_concat(a: Seq<char>, b: Seq<char>)
    ensures
        encode_utf8(a + b) == encode_utf8(a) + encode_utf8(b),
    decreases a.len(),
{
    if a.len() == 0 {
        assert(a + b =~= b);
        assert(encode_utf8(a) =~= Seq::<u8>::empty());
        assert(encode_utf8(a) + encode_utf8(b) =~= encode_utf8(b));
    } else {
        lemma_encode_utf8_concat(a.drop_first(), b);
        assert((a + b).drop_first() =~= a.drop_first() + b);
        assert((a + b)[0] == a[0]);
        assert(encode_utf8(a + b) =~= encode_scalar(a[0] as u32) + encode_utf8(a.drop_first() + b));
    }
}

/// An ASCII character is encoded as its own byte.
pub proof fn lemma_encode_ascii_char(c: char, byte: u8)
    requires
        c as u32 == byte as u32,
        byte <= 0x7F,
    ensures
        encode_utf8(seq![c]) == seq![byte],
{
    let s = c as u32;
    assert((s & 0x7F) as u8 == s as u8) by (bit_vector)
        requires
            s <= 0x7F,
    ;
    assert(seq![c].drop_first() =~= Seq::<char>::empty());
    assert(encode_utf8(seq![c]) =~= encode_scalar(s) + encode_utf8(Seq::<char>::empty()));
}

/// The characters of the encoding, as UTF-8, are the bytes of `percent_encode_bytes_by`.
pub proof fn lemma_encoding_bytes(b: Seq<u8>, escaped: spec_fn(u8) -> bool)
    requires
        decodable_set(escaped),
    ensures
        encode_utf8(percent_encode_by(b, escaped)) == percent_encode_bytes_by(b, escaped),
    decreases b.len(),
{
    if b.len() > 0 {
        let x = b.last();
        lemma_encoding_bytes(b.drop_last(), escaped);
        let head = percent_encode_by(b.drop_last(), escaped);
        let tail = if escaped(x) {
            seq!['%', upper_hex(x as int / 16), upper_hex(x as int % 16)]
        } else {
            seq![x as char]
        };
        lemma_encode_utf8_concat(head, tail);
        if !escaped(x) {
            lemma_encode_ascii_char(x as char, x);
        } else {
            let h = x as int / 16;
            let l = x as int % 16;
            lemma_encode_ascii_char('%', 0x25u8);
            lemma_encode_ascii_char(upper_hex(h), upper_hex_byte(h));
            lemma_encode_ascii_char(upper_hex(l), upper_hex_byte(l));
            assert(tail =~= seq!['%'] + seq![upper_hex(h)] + seq![upper_hex(l)]);
            lemma_encode_utf8_concat(seq!['%'] + seq![upper_hex(h)], seq![upper_hex(l)]);
            lemma_encode_utf8_concat(seq!['%'], seq![upper_hex(h)]);
            assert(encode_utf8(tail) =~= seq![0x25u8, upper_hex_byte(h), upper_hex_byte(l)]);
        }
    }
}

/// Encoding a concatenation encodes the pieces one after the other.
pub proof fn lemma_encoding_concat(a: Seq<u8>, b: Seq<u8>, escaped: spec_fn(u8) -> bool)
    ensures
        percent_encode_bytes_by(a + b, escaped) == percent_encode_bytes_by(a, escaped) + percent_encode_bytes_by(b, escaped),
    decreases b.len(),
{
    if b.len() == 0 {
        assert(a + b =~= a);
        assert(percent_encode_bytes_by(a, escaped) + percent_encode_bytes_by(b, escaped) =~= percent_encode_bytes_by(a, escaped));
    } else {
        lemma_encoding_concat(a, b.drop_last(), escaped);
        assert((a + b).drop_last() =~= a + b.drop_last());
        assert((a + b).last() == b.last());
    }
}

/// Decoding what was encoded gives the bytes back, whatever follows.
pub proof fn lemma_decode_encoding(b: Seq<u8>, t: Seq<u8>, escaped: spec_fn(u8) -> bool)
    requires
        decodable_set(escaped),
    ensures
        percent_decode_bytes(percent_encode_bytes_by(b, escaped) + t) == b + percent_decode_bytes(t),
    decreases b.len(),
{
    if b.len() == 0 {
        assert(percent_encode_bytes_by(b, escaped) + t =~= t);
        assert(b + percent_decode_bytes(t) =~= percent_decode_bytes(t));
    } else {
        let x = b[0];
        let rest = b.drop_first();
        assert(b =~= seq![x] + rest);
        lemma_encoding_concat(seq![x], rest, escaped);
        assert(seq![x].drop_last() =~= Seq::<u8>::empty());
        assert(seq![x].last() == x);
        assert(percent_encode_bytes_by(Seq::<u8>::empty(), escaped) =~= Seq::<u8>::empty());
        let ex = percent_encode_bytes_by(seq![x], escaped);
        assert(ex =~= Seq::<u8>::empty() + if escaped(x) {
            seq![0x25u8, upper_hex_byte(x as int / 16), upper_hex_byte(x as int % 16)]
        } else {
            seq![x]
        });
        lemma_decode_encoding(rest, t, escaped);
        let whole = ex + percent_encode_bytes_by(rest, escaped) + t;
        assert(percent_encode_bytes_by(b, escaped) + t =~= whole);
        if !escaped(x) {
            assert(ex =~= seq![x]);
            assert(whole.skip(1) =~= percent_encode_bytes_by(rest, escaped) + t);
            assert(whole[0] == x);
            assert(x != 0x25u8);
        } else {
            let h = x as int / 16;
            let l = x as int % 16;
            assert(whole.skip(3) =~= percent_encode_bytes_by(rest, escaped) + t);
            assert(whole[0] == 0x25u8);
            assert(whole[1] == upper_hex_byte(h));
            assert(whole[2] == upper_hex_byte(l));
            assert(hex_value(upper_hex_byte(h)) == h);
            assert(hex_value(upper_hex_byte(l)) == l);
            assert(h * 16 + l == x as int);
        }
        assert(b + percent_decode_bytes(t) =~= seq![x] + (rest + percent_decode_bytes(t)));
    }
}

/// Percent-decoding the encoding of a text's UTF-8 bytes gives those bytes back.
pub proof fn lemma_percent_roundtrip(s: Seq<char>, escaped: spec_fn(u8) -> bool)
    requires
        decodable_set(escaped),
    ensures
        percent_decode_bytes(encode_utf8(percent_encode_by(encode_utf8(s), escaped))) == encode_utf8(s),
{
    let b = encode_utf8(s);
    lemma_encoding_bytes(b, escaped);
    lemma_decode_encoding(b, Seq::empty(), escaped);
    assert(percent_decode_bytes(Seq::<u8>::empty()) =~= Seq::<u8>::empty());
    assert(percent_encode_bytes_by(b, escaped) + Seq::<u8>::empty() =~= percent_encode_bytes_by(b, escaped));
    assert(b + Seq::<u8>::empty() =~= b);
}

/// `alnum_encode` escapes every byte but ASCII letters and digits.
pub proof fn lemma_alnum_encode_by(b: Seq<u8>)
    ensures
        alnum_encode(b) == percent_encode_by(b, |x: u8| !is_ascii_alnum(x)),
    decreases b.len(),
{
    if b.len() > 0 {
        lemma_alnum_encode_by(b.drop_last());
    }
}

/// URL-decoding the URL encoding of a text gives the text back.
pub proof fn law_url_roundtrip(s: Seq<char>)
    ensures
        decode_segment(alnum_encode(encode_utf8(s))) == Some(s),
{
    let e = |x: u8| !is_ascii_alnum(x);
    assert(decodable_set(e));
    lemma_alnum_encode_by(encode_utf8(s));
    lemma_percent_roundtrip(s, e);
    encode_utf8_valid_utf8(s);
    encode_utf8_decode_utf8(s);
}

} // verus!
