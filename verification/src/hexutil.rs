//! Hexadecimal encoding and decoding of APDU payloads and reset answers.
//!
//! The wire protocol carries every byte blob as a hex string.  The
//! specifications here are stated over byte sequences: a hex string is a
//! sequence of ASCII digit bytes, and the conversion between the two
//! directions is pinned down exactly.

use vstd::prelude::*;

verus! {

/// True when `b` is the ASCII code of a hexadecimal digit, upper or lower case.
pub open spec fn is_hex_byte(b: u8) -> bool {
    (48 <= b && b <= 57)  // '0' ..= '9'
    || (97 <= b && b <= 102)  // 'a' ..= 'f'
    || (65 <= b && b <= 70)  // 'A' ..= 'F'
}

/// Numeric value of one hex digit byte.
pub open spec fn hex_byte_val(b: u8) -> u8 {
    if 48 <= b && b <= 57 {
        (b - 48) as u8
    } else if 97 <= b && b <= 102 {
        (b - 97 + 10) as u8
    } else {
        (b - 65 + 10) as u8
    }
}

/// A byte string that decodes as hex: even length, hex digits only.
pub open spec fn valid_hex(s: Seq<u8>) -> bool {
    s.len() % 2 == 0 && (forall|i: int| 0 <= i < s.len() ==> is_hex_byte(#[trigger] s[i]))
}

/// The bytes encoded by a valid hex string.
pub open spec fn bytes_of_hex(s: Seq<u8>) -> Seq<u8> {
    Seq::new(s.len() / 2, |i: int| (hex_byte_val(s[2 * i]) * 16 + hex_byte_val(s[2 * i + 1])) as u8)
}

/// Lower-case ASCII hex digit for a nibble value below 16.
pub open spec fn lower_hex_digit(n: u8) -> u8 {
    if n < 10 {
        (48 + n) as u8  // '0' + n
    } else {
        (87 + n) as u8  // 'a' + n - 10
    }
}

/// Upper-case ASCII hex digit for a nibble value below 16.
pub open spec fn upper_hex_digit(n: u8) -> u8 {
    if n < 10 {
        (48 + n) as u8  // '0' + n
    } else {
        (55 + n) as u8  // 'A' + n - 10
    }
}

/// Lower-case hex encoding of a byte sequence, as ASCII bytes.
pub open spec fn hex_lower_bytes(b: Seq<u8>) -> Seq<u8> {
    Seq::new(2 * b.len(), |i: int|
        if i % 2 == 0 {
            lower_hex_digit(b[i / 2] / 16)
        } else {
            lower_hex_digit(b[i / 2] % 16)
        })
}

/// Upper-case hex encoding of a byte sequence, as ASCII bytes.
pub open spec fn hex_upper_bytes(b: Seq<u8>) -> Seq<u8> {
    Seq::new(2 * b.len(), |i: int|
        if i % 2 == 0 {
            upper_hex_digit(b[i / 2] / 16)
        } else {
            upper_hex_digit(b[i / 2] % 16)
        })
}

/// The characters of a sequence of ASCII bytes, one character per byte.
pub open spec fn chars_of_ascii(b: Seq<u8>) -> Seq<char> {
    Seq::new(b.len(), |i: int| b[i] as char)
}

#[verifier::external_type_specification]
#[verifier::external_body]
pub struct ExFromHexError(hex::FromHexError);

/// Relies on hex::decode: succeeds exactly on even-length strings of hex
/// digit bytes and yields the bytes they encode, two digits per byte.
#[verifier::external_body]
pub(crate) fn hex_decode(s: &[u8]) -> (r: Result<Vec<u8>, hex::FromHexError>)
    ensures
        r is Ok <==> valid_hex(s@),
        r matches Ok(b) ==> b@ == bytes_of_hex(s@),
{
    hex::decode(s)
}

/// Relies on hex::encode: two lower-case hex digits for each input byte.
#[verifier::external_body]
pub(crate) fn hex_encode(b: &[u8]) -> (r: String)
    ensures
        r@ == chars_of_ascii(hex_lower_bytes(b@)),
{
    hex::encode(b)
}

/// Relies on String::from_utf8: bytes below 0x80 decode to one character each.
#[verifier::external_body]
pub(crate) fn ascii_to_string(v: Vec<u8>) -> (r: String)
    requires
        forall|i: int| 0 <= i < v@.len() ==> v@[i] < 0x80,
    ensures
        r@ == chars_of_ascii(v@),
{
    match String::from_utf8(v) {
        Ok(s) => s,
        Err(_) => String::new(),
    }
}

} // verus!
