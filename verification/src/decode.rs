//! Lossy UTF-8 decoding of raw bytes.
//!
//! Every input is interpreted as UTF-8, with invalid sequences replaced by a
//! placeholder character. The decoding itself is done by the standard
//! library; its result is named by an uninterpreted function so that the
//! engines' contracts can speak of it exactly.

use vstd::prelude::*;

verus! {

/// The characters that lossy UTF-8 decoding yields for the given bytes.
/// The result depends on the bytes alone.
pub uninterp spec fn decoded(bytes: Seq<u8>) -> Seq<char>;

/// Relies on String::from_utf8_lossy: it decodes the bytes as UTF-8,
/// replacing invalid sequences with U+FFFD; the result is a function of the
/// bytes alone, and an empty input decodes to the empty string.
#[verifier::external_body]
pub(crate) fn decode_lossy(bytes: &Vec<u8>) -> (r: String)
    ensures
        r@ == decoded(bytes@),
        bytes@.len() == 0 ==> r@.len() == 0,
{
    String::from_utf8_lossy(bytes).into_owned()
}

} // verus!
