//! Text out of bytes that need not be valid UTF-8.
use vstd::prelude::*;
use vstd::utf8::{decode_first_scalar, decode_utf8, pop_first_scalar, valid_utf8};

verus! {

/// The character that lossy decoding puts in place of bytes that encode none.
pub const REPLACEMENT: char = '\u{FFFD}';

/// The text that lossy decoding makes of `bytes`: what they encode, with the
/// replacement character U+FFFD in place of each sequence that is not valid
/// UTF-8.
pub uninterp spec fn utf8_lossy(bytes: Seq<u8>) -> Seq<char>;

/// The text of one chunk of a file: what the bytes encode where they are valid
/// UTF-8, else what lossy decoding makes of them.
pub open spec fn chunk_text(bytes: Seq<u8>) -> Seq<char> {
    if valid_utf8(bytes) {
        decode_utf8(bytes)
    } else {
        utf8_lossy(bytes)
    }
}

/// Decodes `bytes` with `String::from_utf8_lossy` of the standard library.
///
/// Not proved: that the text is a function of the bytes alone, here called
/// [`utf8_lossy`]; that bytes which are valid UTF-8 give exactly the text
/// they encode; and that bytes which are not give a text that holds the
/// replacement character. Where in the text it stands, and how many times,
/// is not stated.
#[verifier::external_body]
pub(crate) fn decode_lossy(bytes: &[u8]) -> (text: String)
    ensures
        text@ == utf8_lossy(bytes@),
        valid_utf8(bytes@) ==> text@ == decode_utf8(bytes@),
        !valid_utf8(bytes@) ==> text@.contains(REPLACEMENT),
{
    String::from_utf8_lossy(bytes).into_owned()
}

/// Two byte sequences that are valid UTF-8 each are so together, and encode
/// the text of the first followed by the text of the second.
pub proof fn lemma_decode_concat(first: Seq<u8>, second: Seq<u8>)
    requires
        valid_utf8(first),
        valid_utf8(second),
    ensures
        valid_utf8(first + second),
        decode_utf8(first + second) == decode_utf8(first) + decode_utf8(second),
    decreases first.len(),
{
    vstd::utf8::valid_utf8_concat(first, second);
    if first.len() == 0 {
        assert(first + second == second);
    } else {
        let rest = pop_first_scalar(first);
        assert(pop_first_scalar(first + second) == rest + second);
        assert(decode_first_scalar(first + second) == decode_first_scalar(first));
        lemma_decode_concat(rest, second);
    }
}

} // verus!
