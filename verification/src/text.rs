//! ASCII bytes as text, and byte strings decoded as UTF-8.

use std::string::FromUtf8Error;
use vstd::prelude::*;
use vstd::utf8::{
    decode_utf8, encode_utf8, encode_utf8_decode_utf8, encode_utf8_valid_utf8, is_ascii_chars,
    is_ascii_chars_encode_utf8, valid_utf8,
};

verus! {

/// Every byte is below 128.
pub open spec fn is_ascii_bytes(bytes: Seq<u8>) -> bool {
    forall|i: int| 0 <= i < bytes.len() ==> #[trigger] bytes[i] < 128
}

/// The text whose characters are the given bytes, one character per byte.
pub open spec fn ascii_text(bytes: Seq<u8>) -> Seq<char> {
    Seq::new(bytes.len(), |i: int| bytes[i] as char)
}

/// ASCII bytes are the UTF-8 encoding of the text they spell.
pub proof fn lemma_ascii_bytes_are_utf8(bytes: Seq<u8>)
    requires
        is_ascii_bytes(bytes),
    ensures
        valid_utf8(bytes),
        encode_utf8(ascii_text(bytes)) == bytes,
        decode_utf8(bytes) == ascii_text(bytes),
{
    let text = ascii_text(bytes);
    assert(is_ascii_chars(text));
    is_ascii_chars_encode_utf8(text);
    assert(encode_utf8(text) =~= bytes);
    encode_utf8_valid_utf8(text);
    encode_utf8_decode_utf8(text);
}

/// A text whose UTF-8 encoding is all ASCII is spelled by those bytes.
pub proof fn lemma_text_of_ascii_encoding(text: Seq<char>)
    requires
        is_ascii_bytes(encode_utf8(text)),
    ensures
        text == ascii_text(encode_utf8(text)),
{
    lemma_ascii_bytes_are_utf8(encode_utf8(text));
    encode_utf8_decode_utf8(text);
}

/// The error of `String::from_utf8`, of which nothing is read.
#[verifier::external_type_specification]
#[verifier::external_body]
pub struct ExFromUtf8Error(FromUtf8Error);

/// `String::from_utf8` succeeds exactly on valid UTF-8, and the string it
/// returns is encoded by the bytes it was given.
pub assume_specification[ String::from_utf8 ](bytes: Vec<u8>) -> (r: Result<String, FromUtf8Error>)
    ensures
        r is Ok <==> valid_utf8(bytes@),
        r matches Ok(s) ==> encode_utf8(s@) == bytes@,
;

/// The decimal digits of `n` as ASCII bytes, most significant first, without
/// leading zeros.
pub open spec fn decimal_digits(n: nat) -> Seq<u8>
    decreases n,
{
    if n < 10 {
        seq![(48 + n) as u8]
    } else {
        decimal_digits(n / 10).push((48 + n % 10) as u8)
    }
}

/// Decimal digits are ASCII.
pub proof fn lemma_decimal_digits_are_ascii(n: nat)
    ensures
        is_ascii_bytes(decimal_digits(n)),
        decimal_digits(n).len() > 0,
    decreases n,
{
    if n >= 10 {
        lemma_decimal_digits_are_ascii(n / 10);
    }
}

/// Appends the decimal digits of `n` to `out`.
fn push_decimal_digits(n: u32, out: &mut Vec<u8>)
    ensures
        final(out)@ == old(out)@ + decimal_digits(n as nat),
    decreases n,
{
    if n >= 10 {
        push_decimal_digits(n / 10, out);
    }
    out.push(48 + (n % 10) as u8);
}

/// `n` in decimal.
pub fn decimal_string(n: u32) -> (r: String)
    ensures
        r@ == ascii_text(decimal_digits(n as nat)),
{
    let mut digits: Vec<u8> = Vec::new();
    push_decimal_digits(n, &mut digits);
    proof {
        lemma_decimal_digits_are_ascii(n as nat);
        lemma_ascii_bytes_are_utf8(digits@);
    }
    match String::from_utf8(digits) {
        Ok(s) => {
            proof {
                encode_utf8_decode_utf8(s@);
            }
            s
        },
        Err(_) => vstd::pervasive::unreached(),
    }
}

} // verus!
