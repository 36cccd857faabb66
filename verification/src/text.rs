//! Text for messages, made of bytes that need not be text.

use vstd::prelude::*;
use vstd::utf8::decode_utf8;
use vstd::utf8::valid_utf8;

verus! {

/// The text that stands for `bytes` in a message: the text they encode in
/// UTF-8, with a replacement character wherever they encode none.
pub uninterp spec fn lossy_text(bytes: Seq<u8>) -> Seq<char>;

/// `String::from_utf8_lossy` of the standard library, with the result
/// copied into a `String`. The text depends on the bytes alone, and bytes
/// that are valid UTF-8 give exactly the text that they encode.
#[verifier::external_body]
pub(crate) fn lossy(bytes: &[u8]) -> (text: String)
    ensures
        text@ == lossy_text(bytes@),
        valid_utf8(bytes@) ==> text@ == decode_utf8(bytes@),
{
    String::from_utf8_lossy(bytes).into_owned()
}

} // verus!
