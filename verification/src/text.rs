//! Text-detection heuristic for candidate file contents.
//!
//! A file is indexable text when its bytes hold no control byte other than
//! horizontal tab, line feed and carriage return (in particular no NUL) and
//! decode as valid UTF-8.

use vstd::prelude::*;
use vstd::utf8::{decode_utf8, valid_utf8};

verus! {

/// True when byte `b` is a control byte that disqualifies a file from
/// content indexing: anything below space except tab, line feed and
/// carriage return; NUL included.
pub open spec fn is_binary_byte(b: u8) -> bool {
    b < 0x20 && b != 0x09 && b != 0x0A && b != 0x0D
}

/// True when no byte of `bytes` is a disqualifying control byte.
pub open spec fn bytes_look_textual(bytes: Seq<u8>) -> bool {
    forall|i: int| 0 <= i < bytes.len() ==> !is_binary_byte(bytes[i])
}

/// The whole text heuristic: no disqualifying control byte, and valid UTF-8.
pub open spec fn text_heuristic(bytes: Seq<u8>) -> bool {
    bytes_look_textual(bytes) && valid_utf8(bytes)
}

/// Relies on std::str::from_utf8: it succeeds exactly on valid UTF-8 input,
/// as vstd's UTF-8 specification states it.
#[verifier::external_body]
fn utf8_check(bytes: &[u8]) -> (r: bool)
    ensures
        r == valid_utf8(bytes@),
{
    std::str::from_utf8(bytes).is_ok()
}

/// Heuristic text check over raw file contents: rejects any file holding a
/// control byte other than tab, line feed and carriage return (NUL
/// included), or bytes that are not valid UTF-8.
pub fn is_probably_text(bytes: &[u8]) -> (r: bool)
    ensures
        r == text_heuristic(bytes@),
{
    let n = bytes.len();
    for i in 0..n
        invariant
            n == bytes@.len(),
            forall|j: int| 0 <= j < i ==> !is_binary_byte(bytes@[j]),
    {
        let b = bytes[i];
        if b < 0x20 && b != 0x09 && b != 0x0A && b != 0x0D {
            return false;
        }
    }
    utf8_check(bytes)
}

/// Relies on String::from_utf8: it succeeds exactly on valid UTF-8 input and
/// returns the string holding the decoded characters, as vstd's UTF-8
/// specification states them.
#[verifier::external_body]
pub(crate) fn decode_text(bytes: Vec<u8>) -> (r: Option<String>)
    ensures
        r is Some <==> valid_utf8(bytes@),
        r is Some ==> r.unwrap()@ == decode_utf8(bytes@),
{
    match String::from_utf8(bytes) {
        Ok(s) => Some(s),
        Err(_) => None,
    }
}

} // verus!
