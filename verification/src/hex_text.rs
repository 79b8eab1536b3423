//! Hexadecimal text, as keys and credentials are written in config files.

use vstd::prelude::*;

use crate::bytes::array32;

verus! {

/// `hex::FromHexError`, carried and not looked into.
#[verifier::external_type_specification]
#[verifier::external_body]
pub struct ExFromHexError(hex::FromHexError);

/// The lowercase digit for a number below sixteen.
pub open spec fn hex_digit(n: int) -> char {
    (if n < 10 {
        48 + n
    } else {
        87 + n
    }) as char
}

/// The number that a digit stands for, in either case.
pub open spec fn digit_value(c: char) -> Option<int> {
    if '0' <= c <= '9' {
        Some(c as int - 48)
    } else if 'a' <= c <= 'f' {
        Some(c as int - 87)
    } else if 'A' <= c <= 'F' {
        Some(c as int - 55)
    } else {
        None
    }
}

/// Two lowercase digits for each byte.
pub open spec fn hex_chars(bytes: Seq<u8>) -> Seq<char> {
    Seq::new(
        2 * bytes.len(),
        |i: int|
            if i % 2 == 0 {
                hex_digit(bytes[i / 2] as int / 16)
            } else {
                hex_digit(bytes[i / 2] as int % 16)
            },
    )
}

/// Whether a text consists of pairs of hexadecimal digits.
pub open spec fn is_hex(text: Seq<char>) -> bool {
    &&& text.len() % 2 == 0
    &&& forall|i: int| 0 <= i < text.len() ==> digit_value(#[trigger] text[i]) is Some
}

/// One byte for each pair of digits.
pub open spec fn hex_bytes(text: Seq<char>) -> Seq<u8> {
    Seq::new(
        text.len() / 2,
        |i: int| (digit_value(text[2 * i])->0 * 16 + digit_value(text[2 * i + 1])->0) as u8,
    )
}

/// The error with which `hex::decode` refuses a text.
pub uninterp spec fn hex_error(text: Seq<char>) -> hex::FromHexError;

/// `hex::encode`: two lowercase digits for each byte.
#[verifier::external_body]
pub(crate) fn encode(bytes: &[u8]) -> (text: String)
    ensures
        text@ == hex_chars(bytes@),
{
    hex::encode(bytes)
}

/// `hex::decode`: the bytes of a text that consists of pairs of digits in either
/// case, and for any other text an error that depends on the text alone.
#[verifier::external_body]
pub(crate) fn decode(text: &str) -> (r: Result<Vec<u8>, hex::FromHexError>)
    ensures
        match r {
            Ok(bytes) => is_hex(text@) && bytes@ == hex_bytes(text@),
            Err(e) => !is_hex(text@) && e == hex_error(text@),
        },
{
    hex::decode(text)
}

/// Why a text is not a key of 32 bytes.
#[derive(Debug)]
pub enum HexKeyError {
    /// The text is not hexadecimal.
    NotHex(hex::FromHexError),
    /// The text spells more or fewer than 32 bytes.
    WrongLength,
}

/// The 32 bytes that a text of 64 hexadecimal digits spells.
pub fn decode_key(text: &str) -> (r: Result<[u8; 32], HexKeyError>)
    ensures
        match r {
            Ok(bytes) => is_hex(text@) && text@.len() == 64 && bytes@ == hex_bytes(text@),
            Err(HexKeyError::NotHex(e)) => !is_hex(text@) && e == hex_error(text@),
            Err(HexKeyError::WrongLength) => is_hex(text@) && text@.len() != 64,
        },
{
    match decode(text) {
        Ok(bytes) => match array32(bytes.as_slice()) {
            Some(array) => Ok(array),
            None => Err(HexKeyError::WrongLength),
        },
        Err(e) => Err(HexKeyError::NotHex(e)),
    }
}

/// The text of any bytes is hexadecimal, and spells those bytes.
pub proof fn lemma_hex_round_trip(bytes: Seq<u8>)
    ensures
        is_hex(hex_chars(bytes)),
        hex_chars(bytes).len() == 2 * bytes.len(),
        hex_bytes(hex_chars(bytes)) == bytes,
{
    let text = hex_chars(bytes);
    assert forall|i: int| 0 <= i < text.len() implies digit_value(#[trigger] text[i]) is Some by {
        let b = bytes[i / 2];
        assert(0 <= b as int / 16 < 16);
        assert(0 <= b as int % 16 < 16);
    }
    assert forall|i: int| 0 <= i < bytes.len() implies hex_bytes(text)[i] == #[trigger] bytes[i] by {
        let b = bytes[i] as int;
        assert((2 * i) / 2 == i && (2 * i + 1) / 2 == i);
        assert((2 * i) % 2 == 0 && (2 * i + 1) % 2 == 1);
        assert(0 <= b / 16 < 16);
        assert(digit_value(hex_digit(b / 16)) == Some(b / 16));
        assert(digit_value(hex_digit(b % 16)) == Some(b % 16));
        assert(b == (b / 16) * 16 + b % 16);
    }
    assert(hex_bytes(text) =~= bytes);
}

/// Different bytes have different texts.
pub proof fn lemma_hex_injective(a: Seq<u8>, b: Seq<u8>)
    requires
        hex_chars(a) == hex_chars(b),
    ensures
        a == b,
{
    lemma_hex_round_trip(a);
    lemma_hex_round_trip(b);
}

} // verus!
