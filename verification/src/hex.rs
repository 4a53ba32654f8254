//! Hexadecimal text, as colours are written in a skeleton document.
use crate::skeleton::error::SkeletonError;
use rustc_serialize::hex::FromHex;
use rustc_serialize::hex::FromHexError;
use vstd::prelude::*;

verus! {

/// `rustc_serialize::hex::FromHexError`, the error of `from_hex`. Nothing
/// is said of what it holds.
#[verifier::external_type_specification]
#[verifier::external_body]
pub struct ExFromHexError(FromHexError);

/// A character that hexadecimal text may hold between its digits.
pub open spec fn is_hex_blank(c: char) -> bool {
    c == ' ' || c == '\r' || c == '\n' || c == '\t'
}

/// A hexadecimal digit, in either case.
pub open spec fn is_hex_digit(c: char) -> bool {
    ('0' <= c && c <= '9') || ('a' <= c && c <= 'f') || ('A' <= c && c <= 'F')
}

/// The number that a hexadecimal digit stands for.
pub open spec fn hex_digit_value(c: char) -> int {
    if '0' <= c && c <= '9' {
        c as int - '0' as int
    } else if 'a' <= c && c <= 'f' {
        c as int - 'a' as int + 10
    } else {
        c as int - 'A' as int + 10
    }
}

/// The characters of `text` that are not blank, in order.
pub open spec fn hex_digits(text: Seq<char>) -> Seq<char> {
    text.filter(|c: char| !is_hex_blank(c))
}

/// Whether `text` is hexadecimal text: digits and blanks only, the digits
/// even in number.
pub open spec fn is_hex_text(text: Seq<char>) -> bool {
    &&& forall|i: int| 0 <= i < text.len() ==> is_hex_blank(#[trigger] text[i]) || is_hex_digit(text[i])
    &&& hex_digits(text).len() % 2 == 0
}

/// The bytes that hexadecimal text stands for: one for each pair of digits,
/// the first digit of a pair counting sixteenfold.
pub open spec fn hex_bytes(text: Seq<char>) -> Seq<u8> {
    let digits = hex_digits(text);
    Seq::new(
        digits.len() / 2,
        |i: int| (16 * hex_digit_value(digits[2 * i]) + hex_digit_value(digits[2 * i + 1])) as u8,
    )
}

/// `rustc_serialize::hex::FromHex::from_hex` on a string. It skips spaces,
/// tabs, carriage returns and line feeds, reads each character that is
/// left as a hexadecimal digit of either case, and joins the digits in
/// pairs to bytes. It fails on a character that is neither, and on an odd
/// number of digits. The contract states when it succeeds, and the bytes of
/// a success; of the error it states nothing.
#[verifier::external_body]
pub(crate) fn from_hex(text: &str) -> (r: Result<Vec<u8>, FromHexError>)
    ensures
        r is Ok <==> is_hex_text(text@),
        r matches Ok(bytes) ==> bytes@ == hex_bytes(text@),
{
    text.from_hex()
}

/// Opaque white.
pub open spec fn white() -> Seq<u8> {
    seq![255u8, 255u8, 255u8, 255u8]
}

/// The colour that a document writes as `text`: the bytes of hexadecimal
/// text, opaque white where the document writes none, and no colour where
/// the text is not hexadecimal.
pub open spec fn color_of(text: Option<String>) -> Option<Seq<u8>> {
    match text {
        None => Some(white()),
        Some(t) => if is_hex_text(t@) {
            Some(hex_bytes(t@))
        } else {
            None
        },
    }
}

/// Reads the colour that a document writes as `text`.
pub fn decode_color(text: &Option<String>) -> (r: Result<Vec<u8>, SkeletonError>)
    ensures
        match r {
            Ok(bytes) => color_of(*text) == Some(bytes@),
            Err(e) => color_of(*text) is None && e is ColorDecodeError,
        },
{
    match text {
        None => {
            let bytes: Vec<u8> = vec![255, 255, 255, 255];
            assert(bytes@ =~= white());
            Ok(bytes)
        },
        Some(t) => match from_hex(t.as_str()) {
            Ok(bytes) => Ok(bytes),
            Err(_) => Err(SkeletonError::ColorDecodeError),
        },
    }
}

} // verus!
