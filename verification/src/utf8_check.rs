//! Checking bytes for UTF-8 with `std::str::from_utf8`, and where a check stops.

use vstd::prelude::*;
use vstd::utf8::*;

verus! {

/// Where a UTF-8 check stopped: the length of the longest valid prefix, the length of the
/// invalid sequence after it (`None` when the input ends inside a sequence), and the error's
/// text.
pub struct Utf8Failure {
    pub valid_up_to: usize,
    pub error_len: Option<usize>,
    pub message: String,
}

/// `Utf8Error::error_len` for the bytes checked.
pub uninterp spec fn utf8_error_len(bytes: Seq<u8>) -> Option<usize>;

/// `std::str::from_utf8`. On success the text whose UTF-8 encoding is `bytes`; on failure
/// `valid_up_to` is the longest prefix that is valid UTF-8 (as `Utf8Error::valid_up_to`
/// documents it) and `error_len` is what `Utf8Error::error_len` returns. Nothing is claimed
/// of the error's text.
#[verifier::external_body]
pub(crate) fn check_utf8(bytes: &[u8]) -> (r: Result<String, Utf8Failure>)
    ensures
        r is Ok <==> valid_utf8(bytes@),
        r matches Ok(s) ==> encode_utf8(s@) == bytes@,
        r matches Err(e) ==> {
            &&& e.valid_up_to < bytes@.len()
            &&& valid_utf8(bytes@.take(e.valid_up_to as int))
            &&& forall|j: int| e.valid_up_to < j <= bytes@.len() ==> !valid_utf8(#[trigger] bytes@.take(j))
            &&& e.error_len == utf8_error_len(bytes@)
        },
{
    match std::str::from_utf8(bytes) {
        Ok(s) => Ok(s.to_string()),
        Err(e) => Err(Utf8Failure { valid_up_to: e.valid_up_to(), error_len: e.error_len(), message: e.to_string() }),
    }
}

/// Decoding two valid pieces decodes their concatenation.
pub proof fn lemma_decode_concat(a: Seq<u8>, b: Seq<u8>)
    requires
        valid_utf8(a),
        valid_utf8(b),
    ensures
        valid_utf8(a + b),
        decode_utf8(a + b) == decode_utf8(a) + decode_utf8(b),
    decreases a.len(),
{
    valid_utf8_concat(a, b);
    if a.len() == 0 {
        assert(a + b =~= b);
        assert(decode_utf8(a) =~= Seq::<char>::empty());
        assert(decode_utf8(a) + decode_utf8(b) =~= decode_utf8(b));
    } else {
        let rest = pop_first_scalar(a);
        assert(rest.len() < a.len()) by {
            assert(length_of_first_scalar(a) >= 1);
        }
        lemma_decode_concat(rest, b);
        assert(pop_first_scalar(a + b) =~= rest + b);
        assert(decode_first_scalar(a + b) == decode_first_scalar(a));
        assert(decode_utf8(a + b) =~= seq![decode_first_scalar(a) as char] + decode_utf8(rest + b));
        assert(decode_utf8(a) =~= seq![decode_first_scalar(a) as char] + decode_utf8(rest));
        assert(decode_utf8(a + b) =~= decode_utf8(a) + decode_utf8(b));
    }
}

} // verus!
