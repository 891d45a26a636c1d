//! Bytes as hexadecimal text, and comparison of texts.

use crate::bytes::same;
use vstd::prelude::*;
use vstd::string::*;
use vstd::utf8::*;

verus! {

/// `hex::FromHexError`.
#[verifier::external_type_specification]
#[verifier::external_body]
pub struct ExFromHexError(hex::FromHexError);

/// The value of a hexadecimal digit, in lower or upper case.
pub open spec fn digit_value(c: u8) -> Option<u8> {
    if 0x30 <= c <= 0x39 {
        Some((c - 0x30) as u8)
    } else if 0x41 <= c <= 0x46 {
        Some((c - 0x41 + 10) as u8)
    } else if 0x61 <= c <= 0x66 {
        Some((c - 0x61 + 10) as u8)
    } else {
        None
    }
}

/// Does the text consist of pairs of hexadecimal digits?
pub open spec fn is_hex(text: Seq<u8>) -> bool {
    text.len() % 2 == 0 && forall|i: int|
        0 <= i < text.len() ==> digit_value(#[trigger] text[i]) is Some
}

/// The bytes that pairs of hexadecimal digits write.
pub open spec fn from_hex(text: Seq<u8>) -> Seq<u8> {
    Seq::new(
        text.len() / 2,
        |i: int| (16 * digit_value(text[2 * i])->0 + digit_value(text[2 * i + 1])->0) as u8,
    )
}

/// The digit of a value below 16, in lower case.
pub open spec fn lower_digit(value: int) -> u8 {
    if value < 10 {
        (0x30 + value) as u8
    } else {
        (0x61 + value - 10) as u8
    }
}

/// Bytes as pairs of hexadecimal digits in lower case.
pub open spec fn to_hex(data: Seq<u8>) -> Seq<u8> {
    Seq::new(
        2 * data.len(),
        |i: int|
            if i % 2 == 0 {
                lower_digit(data[i / 2] as int / 16)
            } else {
                lower_digit(data[i / 2] as int % 16)
            },
    )
}

/// `hex::decode`: fails on a text that does not consist of pairs of hexadecimal digits, and
/// else returns the bytes that they write.
#[verifier::external_body]
pub(crate) fn decode_hex(text: &[u8]) -> (r: Result<Vec<u8>, hex::FromHexError>)
    ensures
        match r {
            Ok(data) => is_hex(text@) && data@ == from_hex(text@),
            Err(_) => !is_hex(text@),
        },
{
    hex::decode(text)
}

/// `hex::encode`: two digits for every byte, in lower case.
#[verifier::external_body]
pub(crate) fn encode_hex(data: &[u8]) -> (r: Vec<u8>)
    requires
        4 * data@.len() <= usize::MAX,
    ensures
        r@ == to_hex(data@),
{
    hex::encode(data).into_bytes()
}

/// Bytes that were written are read back as they were.
pub proof fn law_hex_round_trip(data: Seq<u8>)
    ensures
        is_hex(to_hex(data)),
        from_hex(to_hex(data)) == data,
{
    let text = to_hex(data);
    assert forall|i: int| 0 <= i < text.len() implies digit_value(#[trigger] text[i]) is Some by {
        assert(0 <= data[i / 2] as int / 16 < 16);
        assert(0 <= data[i / 2] as int % 16 < 16);
    }
    let back = from_hex(text);
    assert(back.len() == data.len());
    assert forall|i: int| 0 <= i < data.len() implies back[i] == data[i] by {
        let v = data[i] as int;
        assert((2 * i) / 2 == i && (2 * i) % 2 == 0);
        assert((2 * i + 1) / 2 == i && (2 * i + 1) % 2 == 1);
        assert(text[2 * i] == lower_digit(v / 16));
        assert(text[2 * i + 1] == lower_digit(v % 16));
        assert(digit_value(lower_digit(v / 16)) == Some((v / 16) as u8));
        assert(digit_value(lower_digit(v % 16)) == Some((v % 16) as u8));
        assert(16 * (v / 16) + v % 16 == v);
    }
    assert(back =~= data);
}

/// Are the two texts the same?
pub fn is_text(a: &str, b: &str) -> (r: bool)
    ensures
        r == (a@ == b@),
{
    proof {
        encode_utf8_decode_utf8(a@);
        encode_utf8_decode_utf8(b@);
    }
    same(a.as_bytes(), b.as_bytes())
}

/// Each byte is written as two digits, the higher one first, in lower case.
pub proof fn law_hex_digits(data: Seq<u8>, i: int)
    requires
        0 <= i < data.len(),
    ensures
        to_hex(data).len() == 2 * data.len(),
        ({
            let (high, low) = (to_hex(data)[2 * i], to_hex(data)[2 * i + 1]);
            &&& 0x30 <= high <= 0x39 || 0x61 <= high <= 0x66
            &&& 0x30 <= low <= 0x39 || 0x61 <= low <= 0x66
            &&& data[i] == 16 * (if high < 0x3a {
                high - 0x30
            } else {
                high - 0x57
            }) + (if low < 0x3a {
                low - 0x30
            } else {
                low - 0x57
            })
        }),
{
    assert((2 * i) / 2 == i && (2 * i) % 2 == 0);
    assert((2 * i + 1) / 2 == i && (2 * i + 1) % 2 == 1);
    assert(0 <= data[i] as int / 16 < 16);
}

/// A text is read as bytes only if it has an even number of digits and nothing else; upper and
/// lower case mean the same.
pub proof fn law_hex_text(text: Seq<u8>)
    ensures
        is_hex(text) ==> text.len() % 2 == 0 && from_hex(text).len() == text.len() / 2,
        is_hex(text) <==> text.len() % 2 == 0 && forall|i: int|
            0 <= i < text.len() ==> 0x30 <= #[trigger] text[i] <= 0x39 || 0x41 <= text[i] <= 0x46
                || 0x61 <= text[i] <= 0x66,
{
    if is_hex(text) {
        assert forall|i: int| 0 <= i < text.len() implies 0x30 <= #[trigger] text[i] <= 0x39
            || 0x41 <= text[i] <= 0x46 || 0x61 <= text[i] <= 0x66 by {
            assert(digit_value(text[i]) is Some);
        }
    }
}

} // verus!
