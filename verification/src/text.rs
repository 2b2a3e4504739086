//! Decoding bytes as UTF-8 text.

use vstd::prelude::*;
use vstd::utf8::*;

verus! {

/// `n` is the length of the longest prefix of `bytes` that is valid UTF-8.
/// Where `bytes` is not valid UTF-8 as a whole, this is the index at which
/// its first ill-formed sequence starts.
pub open spec fn longest_valid_prefix(bytes: Seq<u8>, n: int) -> bool {
    &&& 0 <= n <= bytes.len()
    &&& valid_utf8(bytes.subrange(0, n))
    &&& forall|m: int| n < m <= bytes.len() ==> !valid_utf8(#[trigger] bytes.subrange(0, m))
}

/// What decoding `bytes` gives: the characters they encode, or the length of
/// their longest valid prefix.
pub open spec fn decoded(bytes: Seq<u8>, r: Result<Seq<char>, int>) -> bool {
    match r {
        Ok(text) => valid_utf8(bytes) && text == decode_utf8(bytes),
        Err(n) => !valid_utf8(bytes) && longest_valid_prefix(bytes, n),
    }
}

/// `String::from_utf8` accepts exactly the byte vectors that are valid UTF-8
/// and then returns the string that they encode. Otherwise its error holds a
/// `Utf8Error`, whose `valid_up_to` is the largest index up to which the
/// input is valid UTF-8. Both are taken from the documentation of std and
/// are not proved here.
#[verifier::external_body]
pub(crate) fn decode_text(bytes: Vec<u8>) -> (r: Result<String, usize>)
    ensures
        match r {
            Ok(text) => decoded(bytes@, Ok(text@)),
            Err(n) => decoded(bytes@, Err(n as int)),
        },
{
    match String::from_utf8(bytes) {
        Ok(text) => Ok(text),
        Err(e) => Err(e.utf8_error().valid_up_to()),
    }
}

/// Bytes below 128 are valid UTF-8, and each of them encodes the character
/// with its own number.
pub proof fn lemma_ascii_bytes_decode(bytes: Seq<u8>)
    requires
        forall|i: int| 0 <= i < bytes.len() ==> #[trigger] bytes[i] < 128,
    ensures
        valid_utf8(bytes),
        decode_utf8(bytes) == Seq::new(bytes.len(), |i: int| bytes[i] as char),
{
    let chars = Seq::new(bytes.len(), |i: int| bytes[i] as char);
    assert(is_ascii_chars(chars)) by {
        assert forall|i: int| 0 <= i < chars.len() implies '\0' <= #[trigger] chars[i]
            <= '\u{7f}' by {
            assert(bytes[i] < 128);
        }
    }
    is_ascii_chars_encode_utf8(chars);
    assert(encode_utf8(chars) =~= bytes) by {
        assert forall|i: int| 0 <= i < bytes.len() implies encode_utf8(chars)[i] == bytes[i] by {
            assert(chars[i] as u8 == encode_utf8(chars)[i]);
            assert(bytes[i] < 128);
        }
    }
    encode_utf8_valid_utf8(chars);
    encode_utf8_decode_utf8(chars);
}

} // verus!
