//! The four-byte type code of a chunk.
//!
//! Bit 5 of each byte (the bit that tells a lower-case letter from an
//! upper-case one) carries one flag of the chunk.

use crate::error::PngError;
use crate::text::{
    ascii_text, is_ascii_bytes, lemma_ascii_bytes_are_utf8, lemma_text_of_ascii_encoding,
};
use vstd::prelude::*;
use vstd::utf8::{encode_utf8, encode_utf8_decode_utf8};

verus! {

/// `b` is an ASCII letter, `A` to `Z` or `a` to `z`.
pub open spec fn is_ascii_letter(b: u8) -> bool {
    (65 <= b <= 90) || (97 <= b <= 122)
}

/// Bit 5 of `b` is set.
pub open spec fn bit5(b: u8) -> bool {
    b & 0x20 == 0x20
}

/// What a type code can hold: four ASCII bytes.
pub open spec fn is_type_code(bytes: Seq<u8>) -> bool {
    bytes.len() == 4 && is_ascii_bytes(bytes)
}

/// Every byte is an ASCII letter.
pub open spec fn all_letters(bytes: Seq<u8>) -> bool {
    forall|i: int| 0 <= i < bytes.len() ==> is_ascii_letter(#[trigger] bytes[i])
}

/// The strict validity rule on the bytes of a type code: four letters, the
/// third of them upper-case.
pub open spec fn is_valid_code(bytes: Seq<u8>) -> bool {
    bytes.len() == 4 && all_letters(bytes) && !bit5(bytes[2])
}

/// A text that names a type code: four characters, each an ASCII letter.
pub open spec fn is_code_text(text: Seq<char>) -> bool {
    text.len() == 4 && forall|i: int|
        0 <= i < text.len() ==> {
            let c = #[trigger] text[i];
            ('A' <= c <= 'Z') || ('a' <= c <= 'z')
        }
}

/// The bytes of a text of ASCII characters, one byte per character.
pub open spec fn text_bytes(text: Seq<char>) -> Seq<u8> {
    Seq::new(text.len(), |i: int| text[i] as u8)
}

/// In a letter, bit 5 is set exactly when the letter is lower-case.
pub proof fn lemma_bit5_of_letter(b: u8)
    requires
        is_ascii_letter(b),
    ensures
        bit5(b) <==> 97 <= b <= 122,
{
    assert((b & 0x20 == 0x20) <==> (97 <= b && b <= 122)) by (bit_vector)
        requires
            (65 <= b && b <= 90) || (97 <= b && b <= 122),
    ;
}

/// The bytes of a code text are four letters, and they are its UTF-8 encoding.
pub proof fn lemma_code_text_bytes(text: Seq<char>)
    requires
        is_code_text(text),
    ensures
        text_bytes(text).len() == 4,
        all_letters(text_bytes(text)),
        encode_utf8(text) == text_bytes(text),
        ascii_text(text_bytes(text)) == text,
{
    let bytes = text_bytes(text);
    assert(all_letters(bytes));
    assert(ascii_text(bytes) =~= text);
    lemma_ascii_bytes_are_utf8(bytes);
}

/// Four letters spell a code text, whose bytes they are.
pub proof fn lemma_letters_spell_code_text(bytes: Seq<u8>)
    requires
        bytes.len() == 4,
        all_letters(bytes),
    ensures
        is_code_text(ascii_text(bytes)),
        text_bytes(ascii_text(bytes)) == bytes,
{
    let text = ascii_text(bytes);
    assert(is_code_text(text));
    assert(text_bytes(text) =~= bytes);
}

/// A chunk type code: four ASCII bytes.
#[derive(Debug)]
pub struct ChunkType {
    bytes: [u8; 4],
}

impl View for ChunkType {
    type V = Seq<u8>;

    closed spec fn view(&self) -> Seq<u8> {
        self.bytes@
    }
}

fn is_letter(b: u8) -> (r: bool)
    ensures
        r == is_ascii_letter(b),
{
    (65 <= b && b <= 90) || (97 <= b && b <= 122)
}

impl ChunkType {
    #[verifier::type_invariant]
    closed spec fn inv(self) -> bool {
        is_ascii_bytes(self.bytes@)
    }

    /// The four bytes of the code.
    pub fn bytes(&self) -> (r: [u8; 4])
        ensures
            r@ == self@,
            is_type_code(self@),
    {
        proof {
            use_type_invariant(self);
        }
        self.bytes
    }

    /// Whether every byte is a letter and the reserved bit is clear: the rule
    /// that a conforming file asks of every type code.
    pub fn is_valid(&self) -> (r: bool)
        ensures
            r == is_valid_code(self@),
    {
        if !self.is_reserved_bit_valid() {
            return false;
        }
        let mut i: usize = 0;
        while i < 4
            invariant
                0 <= i <= 4,
                forall|j: int| 0 <= j < i ==> is_ascii_letter(#[trigger] self.bytes@[j]),
            decreases 4 - i,
        {
            if !is_letter(self.bytes[i]) {
                return false;
            }
            i += 1;
        }
        true
    }

    /// Whether the chunk is critical: bit 5 of the first byte is clear.
    pub fn is_critical(&self) -> (r: bool)
        ensures
            r == !bit5(self@[0]),
    {
        self.bytes[0] & 0x20 != 0x20
    }

    /// Whether the chunk is public: bit 5 of the second byte is clear.
    pub fn is_public(&self) -> (r: bool)
        ensures
            r == !bit5(self@[1]),
    {
        self.bytes[1] & 0x20 != 0x20
    }

    /// Whether the reserved bit, bit 5 of the third byte, is clear.
    pub fn is_reserved_bit_valid(&self) -> (r: bool)
        ensures
            r == !bit5(self@[2]),
    {
        self.bytes[2] & 0x20 != 0x20
    }

    /// Whether the chunk is safe to copy: bit 5 of the fourth byte is set.
    pub fn is_safe_to_copy(&self) -> (r: bool)
        ensures
            r == bit5(self@[3]),
    {
        self.bytes[3] & 0x20 == 0x20
    }

    /// The code as text, one character per byte.
    pub fn to_string(&self) -> (r: String)
        ensures
            r@ == ascii_text(self@),
    {
        proof {
            use_type_invariant(self);
            lemma_ascii_bytes_are_utf8(self.bytes@);
        }
        let mut v: Vec<u8> = Vec::new();
        v.push(self.bytes[0]);
        v.push(self.bytes[1]);
        v.push(self.bytes[2]);
        v.push(self.bytes[3]);
        assert(v@ =~= self.bytes@);
        match String::from_utf8(v) {
            Ok(s) => {
                proof {
                    encode_utf8_decode_utf8(s@);
                }
                s
            },
            Err(_) => vstd::pervasive::unreached(),
        }
    }
}

impl PartialEq for ChunkType {
    fn eq(&self, other: &Self) -> (r: bool) {
        let r = self.bytes[0] == other.bytes[0] && self.bytes[1] == other.bytes[1] && self.bytes[2]
            == other.bytes[2] && self.bytes[3] == other.bytes[3];
        proof {
            if r {
                assert(self.bytes@ =~= other.bytes@);
            }
        }
        r
    }
}

impl Eq for ChunkType {

}

impl vstd::std_specs::cmp::PartialEqSpecImpl for ChunkType {
    open spec fn obeys_eq_spec() -> bool {
        true
    }

    open spec fn eq_spec(&self, other: &Self) -> bool {
        self@ == other@
    }
}

impl TryFrom<[u8; 4]> for ChunkType {
    type Error = PngError;

    /// Makes a type code of four bytes, which must all be ASCII.
    fn try_from(bytes: [u8; 4]) -> (r: Result<ChunkType, PngError>)
        ensures
            r is Ok <==> is_type_code(bytes@),
            r matches Ok(code) ==> code@ == bytes@,
            r matches Err(e) ==> e == PngError::InvalidChunkType,
    {
        let mut i: usize = 0;
        while i < 4
            invariant
                0 <= i <= 4,
                forall|j: int| 0 <= j < i ==> #[trigger] bytes@[j] < 128,
            decreases 4 - i,
        {
            if bytes[i] >= 128 {
                return Err(PngError::InvalidChunkType);
            }
            i += 1;
        }
        let code = ChunkType { bytes };
        Ok(code)
    }
}

impl vstd::std_specs::convert::TryFromSpecImpl<[u8; 4]> for ChunkType {
    open spec fn obeys_try_from_spec() -> bool {
        true
    }

    closed spec fn try_from_spec(bytes: [u8; 4]) -> Result<Self, PngError> {
        if is_type_code(bytes@) {
            Ok(ChunkType { bytes })
        } else {
            Err(PngError::InvalidChunkType)
        }
    }
}

impl std::str::FromStr for ChunkType {
    type Err = PngError;

    /// Makes a type code of a text, which must be four ASCII letters.
    fn from_str(s: &str) -> (r: Result<ChunkType, PngError>)
        ensures
            r is Ok <==> is_code_text(s@),
            r matches Ok(code) ==> code@ == text_bytes(s@),
            r matches Err(e) ==> e == PngError::InvalidChunkType,
    {
        let b = s.as_bytes();
        proof {
            if is_code_text(s@) {
                lemma_code_text_bytes(s@);
            }
        }
        if b.len() != 4 {
            return Err(PngError::InvalidChunkType);
        }
        let mut i: usize = 0;
        while i < 4
            invariant
                0 <= i <= 4,
                b@.len() == 4,
                b@ == encode_utf8(s@),
                is_code_text(s@) ==> all_letters(b@),
                forall|j: int| 0 <= j < i ==> is_ascii_letter(#[trigger] b@[j]),
            decreases 4 - i,
        {
            if !is_letter(b[i]) {
                return Err(PngError::InvalidChunkType);
            }
            i += 1;
        }
        let bytes: [u8; 4] = [b[0], b[1], b[2], b[3]];
        proof {
            assert(is_ascii_bytes(b@));
            lemma_text_of_ascii_encoding(s@);
            lemma_letters_spell_code_text(b@);
        }
        Ok(ChunkType { bytes })
    }
}

} // verus!
