//! Text from encoded bytes. Decoding itself is the standard library's; this
//! module states what it yields.

use vstd::prelude::*;
use vstd::utf8::{decode_utf8, valid_utf8};

verus! {

/// The error of `String::from_utf8`.
#[verifier::external_type_specification]
#[verifier::external_body]
pub struct ExFromUtf8Error(std::string::FromUtf8Error);

/// The error of `String::from_utf16`.
#[verifier::external_type_specification]
#[verifier::external_body]
pub struct ExFromUtf16Error(std::string::FromUtf16Error);

/// Whether `u` is one half of a surrogate pair.
pub open spec fn is_surrogate(u: u16) -> bool {
    0xD800 <= u <= 0xDFFF
}

/// Whether `u` begins with a leading surrogate and its trailing surrogate.
pub open spec fn starts_with_pair(u: Seq<u16>) -> bool {
    u.len() >= 2 && 0xD800 <= u[0] <= 0xDBFF && 0xDC00 <= u[1] <= 0xDFFF
}

/// Whether `u` is well-formed UTF-16: every surrogate is part of a pair.
pub open spec fn valid_utf16(u: Seq<u16>) -> bool
    decreases u.len(),
{
    if u.len() == 0 {
        true
    } else if !is_surrogate(u[0]) {
        valid_utf16(u.skip(1))
    } else if starts_with_pair(u) {
        valid_utf16(u.skip(2))
    } else {
        false
    }
}

/// The code point that a surrogate pair stands for.
pub open spec fn pair_scalar(high: u16, low: u16) -> u32 {
    (0x10000 + (high - 0xD800) * 0x400 + (low - 0xDC00)) as u32
}

/// The text that well-formed UTF-16 stands for.
pub open spec fn decode_utf16(u: Seq<u16>) -> Seq<char>
    decreases u.len(),
{
    if u.len() == 0 {
        Seq::empty()
    } else if !is_surrogate(u[0]) {
        seq![(u[0] as u32) as char] + decode_utf16(u.skip(1))
    } else if starts_with_pair(u) {
        seq![pair_scalar(u[0], u[1]) as char] + decode_utf16(u.skip(2))
    } else {
        Seq::empty()
    }
}

/// The text of `bytes` read as UTF-8, if they are well-formed.
pub open spec fn utf8_text(bytes: Seq<u8>) -> Option<Seq<char>> {
    if valid_utf8(bytes) {
        Some(decode_utf8(bytes))
    } else {
        None
    }
}

/// The text of `units` read as UTF-16, if they are well-formed.
pub open spec fn utf16_text(units: Seq<u16>) -> Option<Seq<char>> {
    if valid_utf16(units) {
        Some(decode_utf16(units))
    } else {
        None
    }
}

/// Calls `String::from_utf8`.
///
/// Assumed, not proved: the call succeeds exactly on well-formed UTF-8, and
/// the string it returns is the text that those bytes encode.
#[verifier::external_body]
fn string_from_utf8(bytes: Vec<u8>) -> (r: Result<String, std::string::FromUtf8Error>)
    ensures
        r is Ok <==> valid_utf8(bytes@),
        r matches Ok(s) ==> s@ == decode_utf8(bytes@),
{
    String::from_utf8(bytes)
}

/// Calls `String::from_utf16`.
///
/// Assumed, not proved: the call succeeds exactly where every surrogate is
/// part of a pair, and the string it returns holds one character for each
/// unit outside the surrogate range and one for each pair.
#[verifier::external_body]
fn string_from_utf16(units: &[u16]) -> (r: Result<String, std::string::FromUtf16Error>)
    ensures
        r is Ok <==> valid_utf16(units@),
        r matches Ok(s) ==> s@ == decode_utf16(units@),
{
    String::from_utf16(units)
}

/// The view of an optional string.
pub open spec fn text_view(t: Option<String>) -> Option<Seq<char>> {
    match t {
        Some(s) => Some(s@),
        None => None,
    }
}

/// Decodes UTF-8 bytes; `None` if they are not well-formed.
pub fn decode_utf8_text(bytes: Vec<u8>) -> (r: Option<String>)
    ensures
        text_view(r) == utf8_text(bytes@),
{
    match string_from_utf8(bytes) {
        Ok(s) => Some(s),
        Err(_) => None,
    }
}

/// Decodes UTF-16 units; `None` if they are not well-formed.
pub fn decode_utf16_text(units: &[u16]) -> (r: Option<String>)
    ensures
        text_view(r) == utf16_text(units@),
{
    match string_from_utf16(units) {
        Ok(s) => Some(s),
        Err(_) => None,
    }
}

} // verus!
