//! Bytes as hexadecimal text, both ways, through the `hex` crate.

use vstd::prelude::*;

verus! {

/// Whether `b` is an ASCII hexadecimal digit, of either case.
pub open spec fn is_hex_digit(b: u8) -> bool {
    48 <= b <= 57 || 65 <= b <= 70 || 97 <= b <= 102
}

/// The value, 0 to 15, of a hexadecimal digit.
pub open spec fn hex_digit_value(b: u8) -> int {
    if 48 <= b <= 57 {
        b - 48
    } else if 65 <= b <= 70 {
        b - 55
    } else {
        b - 87
    }
}

/// The lower-case hexadecimal digit of a value from 0 to 15.
pub open spec fn lower_hex_digit(v: u8) -> u8 {
    if v < 10 {
        (48 + v) as u8
    } else {
        (87 + v) as u8
    }
}

/// Whether `text` is hexadecimal text for whole bytes: an even number of
/// hexadecimal digits and nothing else.
pub open spec fn is_hex_text(text: Seq<u8>) -> bool {
    &&& text.len() % 2 == 0
    &&& forall|i: int| 0 <= i < text.len() ==> is_hex_digit(#[trigger] text[i])
}

/// The bytes that hexadecimal text denotes: each pair of digits is one byte,
/// the first digit its high half.
pub open spec fn hex_decoded(text: Seq<u8>) -> Seq<u8> {
    Seq::new(
        text.len() / 2,
        |i: int| (16 * hex_digit_value(text[2 * i]) + hex_digit_value(text[2 * i + 1])) as u8,
    )
}

/// The lower-case hexadecimal text of `bytes`: two digits for each byte, the
/// high half first.
pub open spec fn hex_encoded(bytes: Seq<u8>) -> Seq<u8> {
    Seq::new(
        2 * bytes.len(),
        |i: int|
            if i % 2 == 0 {
                lower_hex_digit(bytes[i / 2] / 16)
            } else {
                lower_hex_digit(bytes[i / 2] % 16)
            },
    )
}

#[verifier::external_type_specification]
#[verifier::external_body]
pub struct ExFromHexError(hex::FromHexError);

/// Calls `hex::decode`. It fails on text of odd length and on any byte that
/// is not a hexadecimal digit; on all other text it succeeds and gives, for
/// each pair of digits, the byte with the first digit as its high half.
/// Digits of both cases are taken. None of this is proved here.
#[verifier::external_body]
pub(crate) fn decode_hex(text: &[u8]) -> (bytes: Result<Vec<u8>, hex::FromHexError>)
    ensures
        bytes is Ok <==> is_hex_text(text@),
        bytes matches Ok(b) ==> b@ == hex_decoded(text@),
{
    hex::decode(text)
}

/// Calls `hex::encode`. It gives two lower-case hexadecimal digits for each
/// byte, the high half first. None of this is proved here.
#[verifier::external_body]
pub(crate) fn encode_hex(bytes: &[u8]) -> (text: Vec<u8>)
    ensures
        text@ == hex_encoded(bytes@),
{
    hex::encode(bytes).into_bytes()
}

/// The hexadecimal text of any bytes is hexadecimal text, twice as long as
/// the bytes, and it denotes those bytes.
pub proof fn lemma_hex_round_trip(bytes: Seq<u8>)
    ensures
        hex_encoded(bytes).len() == 2 * bytes.len(),
        is_hex_text(hex_encoded(bytes)),
        hex_decoded(hex_encoded(bytes)) == bytes,
{
    let text = hex_encoded(bytes);
    assert forall|i: int| 0 <= i < text.len() implies is_hex_digit(#[trigger] text[i]) by {
        let b = bytes[i / 2];
        assert(0 <= b / 16 < 16 && 0 <= b % 16 < 16);
    }
    assert forall|i: int| 0 <= i < bytes.len() implies hex_decoded(text)[i] == bytes[i] by {
        let b = bytes[i];
        assert((2 * i) / 2 == i && (2 * i + 1) / 2 == i);
        assert((2 * i) % 2 == 0 && (2 * i + 1) % 2 == 1);
        assert(text[2 * i] == lower_hex_digit(b / 16));
        assert(text[2 * i + 1] == lower_hex_digit(b % 16));
        assert(hex_digit_value(lower_hex_digit(b / 16)) == b / 16);
        assert(hex_digit_value(lower_hex_digit(b % 16)) == b % 16);
        assert(16 * (b / 16) + b % 16 == b);
    }
    assert(hex_decoded(text) =~= bytes);
}

} // verus!
