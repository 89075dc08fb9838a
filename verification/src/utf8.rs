use vstd::prelude::*;
use vstd::slice::slice_to_vec;
use vstd::utf8::{decode_utf8, encode_utf8, encode_utf8_decode_utf8, valid_utf8};
use crate::error::CodecError;

verus! {

/// Calls `String::from_utf8`. Claimed: it succeeds exactly on valid UTF-8,
/// and the string it gives has the given bytes as its encoding.
#[verifier::external_body]
fn string_from_utf8(bytes: Vec<u8>) -> (r: Option<String>)
    ensures
        r is Some <==> valid_utf8(bytes@),
        r is Some ==> encode_utf8(r.unwrap()@) == bytes@,
{
    String::from_utf8(bytes).ok()
}

/// The text that `bytes` encode; bytes that are no UTF-8 are a format error.
pub fn text_from_bytes(bytes: &[u8]) -> (r: Result<String, CodecError>)
    ensures
        valid_utf8(bytes@) ==> r is Ok && r.unwrap()@ == decode_utf8(bytes@),
        !valid_utf8(bytes@) ==> r == Err::<String, CodecError>(CodecError::FormatError),
{
    match string_from_utf8(slice_to_vec(bytes)) {
        Some(text) => {
            proof {
                encode_utf8_decode_utf8(text@);
            }
            Ok(text)
        },
        None => Err(CodecError::FormatError),
    }
}

} // verus!
