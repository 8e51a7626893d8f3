//! Text encodings of byte strings: padded standard base64 and hexadecimal.

use base64::engine::general_purpose;
use base64::Engine;
use vstd::prelude::*;

verus! {

/// The padded, standard-alphabet base64 text of `b`, as ASCII bytes.
pub uninterp spec fn base64_of(b: Seq<u8>) -> Seq<u8>;

/// A byte of the standard base64 alphabet, or the padding `=`.
pub open spec fn is_base64_byte(c: u8) -> bool {
    (0x41 <= c <= 0x5a) || (0x61 <= c <= 0x7a) || (0x30 <= c <= 0x39) || c == 0x2b || c == 0x2f
        || c == 0x3d
}

/// Whether `s` is the base64 text of some byte string.
pub open spec fn is_base64_text(s: Seq<u8>) -> bool {
    exists|b: Seq<u8>| base64_of(b) == s
}

/// Value of one hexadecimal digit, either case.
pub open spec fn hex_digit_value(c: u8) -> Option<u8> {
    if 0x30 <= c <= 0x39 {
        Some((c - 0x30) as u8)
    } else if 0x61 <= c <= 0x66 {
        Some((c - 0x61 + 10) as u8)
    } else if 0x41 <= c <= 0x46 {
        Some((c - 0x41 + 10) as u8)
    } else {
        None
    }
}

/// Whether `s` is an even run of hexadecimal digits.
pub open spec fn is_hex_text(s: Seq<u8>) -> bool {
    s.len() % 2 == 0 && forall|i: int| 0 <= i < s.len() ==> (#[trigger] hex_digit_value(s[i])) is Some
}

/// The bytes that the hexadecimal text `s` spells, two digits each.
pub open spec fn hex_value(s: Seq<u8>) -> Seq<u8> {
    Seq::new(
        (s.len() / 2) as nat,
        |i: int| (16 * hex_digit_value(s[2 * i]).unwrap() + hex_digit_value(s[2 * i + 1]).unwrap()) as u8,
    )
}

/// Lower-case hexadecimal digit for a value below 16.
pub open spec fn hex_digit(v: u8) -> u8 {
    if v < 10 {
        (0x30 + v) as u8
    } else {
        (0x61 + v - 10) as u8
    }
}

/// The lower-case hexadecimal text of `b`, high digit first.
pub open spec fn hex_text(b: Seq<u8>) -> Seq<u8> {
    Seq::new(
        2 * b.len(),
        |i: int|
            if i % 2 == 0 {
                hex_digit(b[i / 2] / 16)
            } else {
                hex_digit(b[i / 2] % 16)
            },
    )
}

/// Relies on base64's `STANDARD` engine `encode`: padded output over the
/// standard alphabet, four characters for each started group of three bytes.
#[verifier::external_body]
pub(crate) fn encode_base64(b: &[u8]) -> (r: Vec<u8>)
    ensures
        r@ == base64_of(b@),
        r@.len() == 4 * ((b@.len() + 2) / 3),
        forall|i: int| 0 <= i < r@.len() ==> is_base64_byte(#[trigger] r@[i]),
{
    general_purpose::STANDARD.encode(b).into_bytes()
}

/// Relies on base64's `STANDARD` engine `decode`, whose configuration requires
/// canonical padding and no trailing bits: it accepts exactly the texts that
/// `encode` produces, and gives back the bytes that were encoded.
#[verifier::external_body]
pub(crate) fn decode_base64(s: &[u8]) -> (r: Option<Vec<u8>>)
    ensures
        r is Some <==> is_base64_text(s@),
        r matches Some(v) ==> base64_of(v@) == s@,
        r matches Some(v) ==> forall|b: Seq<u8>| #[trigger] base64_of(b) == s@ ==> b == v@,
{
    general_purpose::STANDARD.decode(s).ok()
}

/// Relies on `hex::encode`: two lower-case digits for each byte.
#[verifier::external_body]
pub(crate) fn encode_hex(b: &[u8]) -> (r: Vec<u8>)
    ensures
        r@ == hex_text(b@),
{
    hex::encode(b).into_bytes()
}

/// Relies on `hex::decode`: an even number of digits of either case, two for
/// each byte; anything else is refused.
#[verifier::external_body]
pub(crate) fn decode_hex(s: &[u8]) -> (r: Option<Vec<u8>>)
    ensures
        r is Some <==> is_hex_text(s@),
        r matches Some(v) ==> v@ == hex_value(s@),
{
    hex::decode(s).ok()
}

} // verus!
