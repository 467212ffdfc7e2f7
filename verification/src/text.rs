//! Turning raw bytes into text, for the places where a payload or a type
//! code is shown to the caller as a string.

use vstd::prelude::*;
use vstd::utf8::{decode_utf8, valid_utf8};

verus! {

/// Relies on `String::from_utf8`: returns the decoded string exactly when
/// the bytes are a valid UTF-8 encoding, and rejects them otherwise.
#[verifier::external_body]
pub(crate) fn string_from_utf8(bytes: Vec<u8>) -> (r: Option<String>)
    ensures
        match r {
            Some(s) => valid_utf8(bytes@) && s@ == decode_utf8(bytes@),
            None => !valid_utf8(bytes@),
        },
{
    String::from_utf8(bytes).ok()
}

/// Relies on `format!` to render one chunk as a line of text; display only,
/// nothing is promised of the layout.
#[verifier::external_body]
pub(crate) fn render_chunk_line(type_code: &String, length: u32, data: &String, crc: u32) -> String {
    format!("{} (Length: {}, Data: {}, CRC: {})", type_code, length, data, crc)
}

} // verus!
