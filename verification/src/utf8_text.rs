//! Turning bytes into text with `std::str::from_utf8`.

use vstd::prelude::*;
use vstd::utf8::{decode_utf8, valid_utf8};

verus! {

/// The text that the `Display` impl of the `Utf8Error` returned by `std::str::from_utf8(bytes)`
/// writes (it names the index of the first bad byte and the length of the bad sequence).
pub uninterp spec fn utf8_error_text(bytes: Seq<u8>) -> Seq<char>;

/// Calls `std::str::from_utf8` on `bytes`. Trusted: std documents that the call succeeds exactly
/// when `bytes` are well-formed UTF-8 and that the `str` then holds the characters they encode;
/// on failure the result is the `Display` text of the error, named `utf8_error_text`.
#[verifier::external_body]
pub(crate) fn decode_utf8_text(bytes: &[u8]) -> (res: Result<String, String>)
    ensures
        res is Ok <==> valid_utf8(bytes@),
        res matches Ok(text) ==> text@ == decode_utf8(bytes@),
        res matches Err(message) ==> message@ == utf8_error_text(bytes@),
{
    match std::str::from_utf8(bytes) {
        Ok(text) => Ok(text.to_string()),
        Err(error) => Err(format!("{}", error)),
    }
}

} // verus!
