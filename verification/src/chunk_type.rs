//! The four-letter type code of a chunk and the flags that the case of its
//! letters encodes.

use vstd::prelude::*;
use vstd::std_specs::cmp::PartialEqSpecImpl;
use vstd::string::*;
use crate::error::Error;
use crate::text::{decode_text, lemma_ascii_bytes_decode};

verus! {

/// The number of bytes in a type code, and in each integer field of a chunk.
pub const BYTE_SIZE: usize = 4;

/// `b` is an upper-case ASCII letter.
pub open spec fn is_upper(b: u8) -> bool {
    0x41 <= b <= 0x5a
}

/// `b` is a lower-case ASCII letter.
pub open spec fn is_lower(b: u8) -> bool {
    0x61 <= b <= 0x7a
}

/// `b` is an ASCII letter.
pub open spec fn is_letter(b: u8) -> bool {
    is_upper(b) || is_lower(b)
}

/// Every byte of `code` is an ASCII letter.
pub open spec fn all_letters(code: Seq<u8>) -> bool {
    forall|i: int| 0 <= i < code.len() ==> is_letter(#[trigger] code[i])
}

/// `code` is a well-formed type code: four ASCII letters.
pub open spec fn valid_code(code: Seq<u8>) -> bool {
    code.len() == BYTE_SIZE && all_letters(code)
}

/// The bytes of a type code read as characters.
pub open spec fn code_text(code: Seq<u8>) -> Seq<char> {
    Seq::new(code.len(), |i: int| code[i] as char)
}

/// The characters of a text read as bytes. It is meant for texts of ASCII
/// characters, where it undoes `code_text`.
pub open spec fn text_code(text: Seq<char>) -> Seq<u8> {
    Seq::new(text.len(), |i: int| text[i] as u8)
}

/// `c` is an ASCII letter.
pub open spec fn is_letter_char(c: char) -> bool {
    ('A' <= c && c <= 'Z') || ('a' <= c && c <= 'z')
}

/// What reading a text as a type code gives: the wrong number of characters
/// is reported first, then a character that is no ASCII letter.
pub open spec fn parse_code(text: Seq<char>) -> Result<Seq<u8>, Error> {
    if text.len() != 4 {
        Err(Error::WrongLength)
    } else if !(forall|i: int| 0 <= i < 4 ==> is_letter_char(#[trigger] text[i])) {
        Err(Error::InvalidChunkTypeBytes)
    } else {
        Ok(text_code(text))
    }
}

/// A validated type code. Its four bytes are ASCII letters and never change.
#[derive(Debug, Clone, Copy)]
pub struct ChunkType([u8; 4]);

impl View for ChunkType {
    type V = Seq<u8>;

    closed spec fn view(&self) -> Seq<u8> {
        self.0@
    }
}

impl ChunkType {
    /// Holds of every type code: it is four ASCII letters.
    #[verifier::type_invariant]
    pub open spec fn well_formed(&self) -> bool {
        valid_code(self@)
    }

    /// Checks four raw bytes and wraps them.
    pub fn try_from(bytes: [u8; 4]) -> (r: Result<ChunkType, Error>)
        ensures
            valid_code(bytes@) ==> r is Ok && r->Ok_0@ == bytes@,
            !valid_code(bytes@) ==> r == Err::<ChunkType, Error>(Error::InvalidChunkTypeBytes),
    {
        let mut i: usize = 0;
        while i < BYTE_SIZE
            invariant
                i <= BYTE_SIZE,
                forall|j: int| 0 <= j < i ==> is_letter(#[trigger] bytes@[j]),
            decreases BYTE_SIZE - i,
        {
            let b: u8 = bytes[i];
            if !((b >= 0x41 && b <= 0x5a) || (b >= 0x61 && b <= 0x7a)) {
                return Err(Error::InvalidChunkTypeBytes);
            }
            i += 1;
        }
        Ok(ChunkType(bytes))
    }

    /// The four bytes of the code.
    pub fn bytes(&self) -> (r: &[u8; 4])
        ensures
            r@ == self@,
            valid_code(self@),
    {
        proof {
            use_type_invariant(self);
        }
        &self.0
    }

    /// The byte at `index`, as a character.
    fn at_char(&self, index: usize) -> (c: char)
        requires
            index < 4,
        ensures
            c == self@[index as int] as char,
            is_letter(self@[index as int]),
    {
        proof {
            use_type_invariant(self);
        }
        self.0[index] as char
    }

    /// Whether the chunk is critical: the first letter is upper case.
    pub fn is_critical(&self) -> (r: bool)
        ensures
            r == is_upper(self@[0]),
    {
        is_uppercase(self.at_char(0))
    }

    /// Whether the chunk is public: the second letter is upper case.
    pub fn is_public(&self) -> (r: bool)
        ensures
            r == is_upper(self@[1]),
    {
        is_uppercase(self.at_char(1))
    }

    /// Whether the reserved bit is valid: the third letter is upper case.
    pub fn is_reserved_bit_valid(&self) -> (r: bool)
        ensures
            r == is_upper(self@[2]),
    {
        is_uppercase(self.at_char(2))
    }

    /// Whether the chunk is safe to copy: the fourth letter is lower case.
    pub fn is_safe_to_copy(&self) -> (r: bool)
        ensures
            r == is_lower(self@[3]),
    {
        !is_uppercase(self.at_char(3))
    }

    /// Whether the code is valid in the narrower sense of the format: it is
    /// not public and its reserved bit is valid.
    pub fn is_valid(&self) -> (r: bool)
        ensures
            r == (!is_upper(self@[1]) && is_upper(self@[2])),
    {
        !self.is_public() && self.is_reserved_bit_valid()
    }

    /// Reads a text of four ASCII letters as a type code.
    pub fn from_str(s: &str) -> (r: Result<ChunkType, Error>)
        ensures
            match parse_code(s@) {
                Ok(code) => r is Ok && r->Ok_0@ == code,
                Err(e) => r == Err::<ChunkType, Error>(e),
            },
    {
        if s.unicode_len() != BYTE_SIZE {
            return Err(Error::WrongLength);
        }
        let c0 = s.get_char(0);
        let c1 = s.get_char(1);
        let c2 = s.get_char(2);
        let c3 = s.get_char(3);
        if !(is_alphabetic(c0) && is_alphabetic(c1) && is_alphabetic(c2) && is_alphabetic(c3)) {
            return Err(Error::InvalidChunkTypeBytes);
        }
        let bytes: [u8; 4] = [c0 as u8, c1 as u8, c2 as u8, c3 as u8];
        assert(bytes@ =~= text_code(s@));
        Ok(ChunkType(bytes))
    }

    /// The code as text. Decoding the bytes is a step that can fail in
    /// general; for a type code it never does.
    pub fn to_string(&self) -> (r: Result<String, Error>)
        ensures
            r is Ok,
            r->Ok_0@ == code_text(self@),
    {
        proof {
            use_type_invariant(self);
            lemma_ascii_bytes_decode(self@);
        }
        let mut bytes: Vec<u8> = Vec::new();
        bytes.push(self.0[0]);
        bytes.push(self.0[1]);
        bytes.push(self.0[2]);
        bytes.push(self.0[3]);
        assert(bytes@ =~= self@);
        match decode_text(bytes) {
            Ok(text) => Ok(text),
            Err(position) => Err(Error::EncodingError { position }),
        }
    }
}

/// Whether `c` is an upper-case ASCII letter.
fn is_uppercase(c: char) -> (r: bool)
    ensures
        r == ('A' <= c && c <= 'Z'),
{
    'A' <= c && c <= 'Z'
}

/// Whether `c` is an ASCII letter.
fn is_alphabetic(c: char) -> (r: bool)
    ensures
        r == is_letter_char(c),
{
    ('A' <= c && c <= 'Z') || ('a' <= c && c <= 'z')
}

impl PartialEq for ChunkType {
    /// Two type codes are equal when their bytes are.
    fn eq(&self, other: &ChunkType) -> (r: bool) {
        let r = self.0[0] == other.0[0] && self.0[1] == other.0[1] && self.0[2] == other.0[2]
            && self.0[3] == other.0[3];
        proof {
            if r {
                assert(self@ =~= other@);
            }
        }
        r
    }
}

impl Eq for ChunkType {}

impl PartialEqSpecImpl for ChunkType {
    open spec fn obeys_eq_spec() -> bool {
        true
    }

    open spec fn eq_spec(&self, other: &ChunkType) -> bool {
        self@ == other@
    }
}

/// A well-formed type code, read as text and parsed again, is itself.
pub proof fn lemma_code_text_parses(code: Seq<u8>)
    requires
        valid_code(code),
    ensures
        parse_code(code_text(code)) == Ok::<Seq<u8>, Error>(code),
{
    let text = code_text(code);
    assert forall|i: int| 0 <= i < 4 implies is_letter_char(#[trigger] text[i]) by {
        assert(is_letter(code[i]));
    }
    assert(text_code(text) =~= code) by {
        assert forall|i: int| 0 <= i < 4 implies text_code(text)[i] == code[i] by {
            assert(is_letter(code[i]));
        }
    }
}

/// A text that is read as a type code spells that code, and the code is
/// well-formed.
pub proof fn lemma_parsed_code(text: Seq<char>)
    requires
        parse_code(text) is Ok,
    ensures
        valid_code(parse_code(text)->Ok_0),
        code_text(parse_code(text)->Ok_0) == text,
{
    let code = text_code(text);
    assert forall|i: int| 0 <= i < 4 implies is_letter(#[trigger] code[i]) by {
        assert(is_letter_char(text[i]));
    }
    assert(code_text(code) =~= text) by {
        assert forall|i: int| 0 <= i < 4 implies code_text(code)[i] == text[i] by {
            assert(is_letter_char(text[i]));
        }
    }
}

} // verus!
