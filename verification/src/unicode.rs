//! The library's trusted surface for Unicode work that is not done in
//! verified code: grapheme segmentation, lossy UTF-8 decoding for
//! diagnostics, and conversion of a scalar value to a character.

use vstd::prelude::*;
use vstd::utf8::is_scalar;

use unicode_segmentation::UnicodeSegmentation;

verus! {

/// The number of extended grapheme clusters of a character sequence:
/// the count of user-perceived characters under Unicode segmentation.
pub uninterp spec fn grapheme_count_of(s: Seq<char>) -> nat;

/// Relies on unicode_segmentation's `UnicodeSegmentation::graphemes`
/// (extended clusters): the number of clusters depends on the
/// characters alone, and an empty string has no cluster.
#[verifier::external_body]
pub(crate) fn grapheme_count(s: &str) -> (n: usize)
    ensures
        n == grapheme_count_of(s@),
        s@.len() == 0 ==> n == 0,
{
    s.graphemes(true).count()
}

/// The characters obtained by decoding a byte sequence as UTF-8 with
/// replacement of invalid parts.
pub uninterp spec fn lossy_decode_of(bytes: Seq<u8>) -> Seq<char>;

/// Relies on `String::from_utf8_lossy`: the decoding depends on the
/// bytes alone.
#[verifier::external_body]
pub(crate) fn lossy_string(bytes: &[u8]) -> (s: String)
    ensures
        s@ == lossy_decode_of(bytes@),
{
    String::from_utf8_lossy(bytes).into_owned()
}

/// Relies on `char::from_u32`: it returns the character with the given
/// value exactly when the value is a Unicode scalar, that is, at most
/// 0x10FFFF and outside the surrogate range.
pub assume_specification[ char::from_u32 ](v: u32) -> (r: Option<char>)
    ensures
        r is Some <==> is_scalar(v),
        r is Some ==> r->0 as u32 == v,
;

} // verus!
