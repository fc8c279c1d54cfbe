//! Content classification: text or opaque, by the source bytes alone.
//!
//! A source file whose bytes are valid UTF-8 is *text* and eligible for
//! templating; any other file is *opaque* and copied verbatim.  What the
//! destination holds never enters into the classification.

use vstd::prelude::*;
use vstd::utf8::{decode_utf8, valid_utf8};

verus! {

/// Relies on `simdutf8::basic::from_utf8`: returns `Ok` exactly when the
/// input is valid UTF-8, and the string then holds the decoded characters.
#[verifier::external_body]
pub fn decode_text(bytes: &Vec<u8>) -> (r: Option<String>)
    ensures
        match r {
            Some(s) => valid_utf8(bytes@) && s@ == decode_utf8(bytes@),
            None => !valid_utf8(bytes@),
        },
{
    match simdutf8::basic::from_utf8(bytes.as_slice()) {
        Ok(s) => Some(s.to_string()),
        Err(_) => None,
    }
}

} // verus!
