//! From the raw text that a windowing system reports to a window title.
//!
//! Windowing systems hand out titles in different shapes: a buffer of UTF-16
//! units with a reported length, a run of bytes meant as UTF-8, or text that
//! is already decoded. Whatever the shape, an empty title counts as no
//! observation, and text that is not well formed is decoded with replacement
//! characters instead of being refused.

use vstd::prelude::*;
use vstd::slice::slice_subrange;
use vstd::utf8::{decode_utf8, valid_utf8};

verus! {

/// The text that `String::from_utf8_lossy` makes of `bytes`.
pub uninterp spec fn utf8_lossy(bytes: Seq<u8>) -> Seq<char>;

/// The text that `String::from_utf16_lossy` makes of `units`.
pub uninterp spec fn utf16_lossy(units: Seq<u16>) -> Seq<char>;

/// Whether no unit of `units` is a surrogate, one half of a pair that
/// stands for a character outside the basic plane.
pub open spec fn surrogate_free(units: Seq<u16>) -> bool {
    forall|i: int| 0 <= i < units.len() ==> !(0xD800 <= #[trigger] units[i] <= 0xDFFF)
}

/// The text of units that are free of surrogates: every unit is the code
/// point of one character.
pub open spec fn unit_chars(units: Seq<u16>) -> Seq<char> {
    Seq::new(units.len(), |i: int| units[i] as u32 as char)
}

/// Calls `String::from_utf8_lossy` and takes ownership of what it returns.
///
/// Trusted: the result is the lossy decoding of `bytes`, which depends on
/// `bytes` alone; where `bytes` is valid UTF-8 nothing is replaced, so the
/// result is the plain decoding.
#[verifier::external_body]
fn decode_utf8_lossy(bytes: &[u8]) -> (text: String)
    ensures
        text@ == utf8_lossy(bytes@),
        valid_utf8(bytes@) ==> text@ == decode_utf8(bytes@),
{
    String::from_utf8_lossy(bytes).into_owned()
}

/// Calls `String::from_utf16_lossy`.
///
/// Trusted: the result is the lossy decoding of `units`, which depends on
/// `units` alone; where no unit is a surrogate nothing is replaced or
/// paired, so every unit gives the character of its code point.
#[verifier::external_body]
fn decode_utf16_lossy(units: &[u16]) -> (text: String)
    ensures
        text@ == utf16_lossy(units@),
        surrogate_free(units@) ==> text@ == unit_chars(units@),
{
    String::from_utf16_lossy(units)
}

/// The title in text that is already decoded: the text itself, or nothing if
/// it is empty.
pub fn title_from_text(text: String) -> (title: Option<String>)
    ensures
        title == if text@.len() == 0 {
            None
        } else {
            Some(text)
        },
{
    if text.as_str().is_empty() {
        None
    } else {
        Some(text)
    }
}

/// The title in a run of bytes meant as UTF-8: nothing if there are no
/// bytes, else their lossy decoding.
pub fn title_from_utf8(bytes: &[u8]) -> (title: Option<String>)
    ensures
        match title {
            Some(text) => {
                &&& bytes@.len() > 0
                &&& text@ == utf8_lossy(bytes@)
                &&& valid_utf8(bytes@) ==> text@ == decode_utf8(bytes@)
            },
            None => bytes@.len() == 0,
        },
{
    if bytes.len() == 0 {
        None
    } else {
        Some(decode_utf8_lossy(bytes))
    }
}

/// The title in a buffer of UTF-16 units of which the windowing system says
/// that it filled the first `length`: nothing if `length` is not positive or
/// exceeds the buffer, else the lossy decoding of those units.
pub fn title_from_utf16(buffer: &[u16], length: i32) -> (title: Option<String>)
    ensures
        match title {
            Some(text) => {
                &&& 0 < length <= buffer@.len()
                &&& text@ == utf16_lossy(buffer@.subrange(0, length as int))
                &&& surrogate_free(buffer@.subrange(0, length as int)) ==> text@ == unit_chars(
                    buffer@.subrange(0, length as int),
                )
            },
            None => !(0 < length <= buffer@.len()),
        },
{
    if length > 0 && length as usize <= buffer.len() {
        let filled = slice_subrange(buffer, 0, length as usize);
        Some(decode_utf16_lossy(filled))
    } else {
        None
    }
}

} // verus!
