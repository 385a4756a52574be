//! Lowercasing, as the standard library does it.

use vstd::prelude::*;
use vstd::utf8::{decode_utf8, encode_utf8};

verus! {

/// The lowercase form of a character sequence, as `str::to_lowercase`
/// computes it.
pub uninterp spec fn lower_of(s: Seq<char>) -> Seq<char>;

/// The UTF-8 bytes of the lowercase form of the text whose UTF-8 bytes are `b`.
pub open spec fn folded(b: Seq<u8>) -> Seq<u8> {
    encode_utf8(lower_of(decode_utf8(b)))
}

/// Relies on `str::to_lowercase`, whose result depends on the characters
/// alone, and on `String::into_bytes`, which hands out its UTF-8 bytes.
/// Lowercasing an empty text gives an empty text.
#[verifier::external_body]
pub(crate) fn lowercase_bytes(s: &str) -> (r: Vec<u8>)
    ensures
        r@ == encode_utf8(lower_of(s@)),
        s@.len() == 0 ==> r@.len() == 0,
{
    s.to_lowercase().into_bytes()
}

} // verus!
