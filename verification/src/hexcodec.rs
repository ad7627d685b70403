//! Hexadecimal key text: what `hex::encode` and `hex::decode` compute, the
//! trusted items that call them, and the round-trip law between the two.
use vstd::prelude::*;

verus! {

/// Value of one hexadecimal digit, upper or lower case.
pub open spec fn hex_digit_value(c: char) -> Option<u8> {
    let u = c as u32;
    if 48 <= u <= 57 {
        Some((u - 48) as u8)
    } else if 65 <= u <= 70 {
        Some((u - 55) as u8)
    } else if 97 <= u <= 102 {
        Some((u - 87) as u8)
    } else {
        None
    }
}

/// Every character of `s` is a hexadecimal digit.
pub open spec fn all_hex_digits(s: Seq<char>) -> bool {
    forall|i: int| 0 <= i < s.len() ==> (#[trigger] hex_digit_value(s[i])) is Some
}

/// What `hex::decode` accepts and gives back: pairs of hex digits, high nibble first.
pub open spec fn hex_decode_spec(s: Seq<char>) -> Option<Seq<u8>> {
    if s.len() % 2 == 0 && all_hex_digits(s) {
        Some(
            Seq::new(
                s.len() / 2,
                |i: int|
                    (hex_digit_value(s[2 * i])->0 * 16 + hex_digit_value(s[2 * i + 1])->0) as u8,
            ),
        )
    } else {
        None
    }
}

/// The lower-case hex digit of a nibble.
pub open spec fn lower_hex_char(d: int) -> char {
    if d < 10 {
        (d + 48) as char
    } else {
        (d + 87) as char
    }
}

/// What `hex::encode` gives: two lower-case digits per byte, high nibble first.
pub open spec fn hex_encode_spec(b: Seq<u8>) -> Seq<char> {
    Seq::new(
        2 * b.len(),
        |i: int|
            if i % 2 == 0 {
                lower_hex_char((b[i / 2] / 16) as int)
            } else {
                lower_hex_char((b[i / 2] % 16) as int)
            },
    )
}

/// Calls `hex::decode` on the bytes of `s`. `hex::decode` fails on an odd
/// number of bytes or on a byte outside `0-9a-fA-F`, and otherwise turns each
/// pair of digits into one byte, the first digit giving the high nibble.
#[verifier::external_body]
fn hex_decode(s: &str) -> (res: Option<Vec<u8>>)
    ensures
        match res {
            Some(v) => hex_decode_spec(s@) == Some(v@),
            None => hex_decode_spec(s@) is None,
        },
{
    hex::decode(s).ok()
}

/// Calls `hex::encode`, which writes each byte as two lower-case hex digits,
/// the high nibble first.
#[verifier::external_body]
fn hex_encode(bytes: &[u8]) -> (res: String)
    ensures
        res@ == hex_encode_spec(bytes@),
{
    hex::encode(bytes)
}

/// Why a hex key text was refused.
#[derive(Debug, Clone, Copy, PartialEq, Eq, Structural)]
pub enum HexError {
    /// An odd number of characters, or a character that is not a hex digit.
    InvalidHex,
}

/// Decodes a hexadecimal string into bytes.
pub fn hex_to_bytes(hex_str: &str) -> (res: Result<Vec<u8>, HexError>)
    ensures
        match res {
            Ok(v) => hex_decode_spec(hex_str@) == Some(v@),
            Err(e) => hex_decode_spec(hex_str@) is None && e == HexError::InvalidHex,
        },
{
    match hex_decode(hex_str) {
        Some(v) => Ok(v),
        None => Err(HexError::InvalidHex),
    }
}

/// Encodes bytes as a lower-case hexadecimal string.
pub fn bytes_to_hex(bytes: &[u8]) -> (res: String)
    ensures
        res@ == hex_encode_spec(bytes@),
{
    hex_encode(bytes)
}

proof fn lemma_nibble_roundtrip(d: int)
    requires
        0 <= d < 16,
    ensures
        hex_digit_value(lower_hex_char(d)) == Some(d as u8),
{
}

/// Decoding the hex text of any bytes gives those bytes back.
pub proof fn lemma_hex_roundtrip(b: Seq<u8>)
    ensures
        hex_decode_spec(hex_encode_spec(b)) == Some(b),
{
    let s = hex_encode_spec(b);
    assert forall|i: int| 0 <= i < s.len() implies (#[trigger] hex_digit_value(s[i])) is Some by {
        if i % 2 == 0 {
            lemma_nibble_roundtrip((b[i / 2] / 16) as int);
        } else {
            lemma_nibble_roundtrip((b[i / 2] % 16) as int);
        }
    }
    let d = hex_decode_spec(s)->0;
    assert forall|i: int| 0 <= i < b.len() implies d[i] == b[i] by {
        assert((2 * i) / 2 == i);
        assert((2 * i + 1) / 2 == i);
        assert((2 * i) % 2 == 0);
        assert((2 * i + 1) % 2 == 1);
        lemma_nibble_roundtrip((b[i] / 16) as int);
        lemma_nibble_roundtrip((b[i] % 16) as int);
        assert(s[2 * i] == lower_hex_char((b[i] / 16) as int));
        assert(s[2 * i + 1] == lower_hex_char((b[i] % 16) as int));
    }
    assert(d =~= b);
}

} // verus!
