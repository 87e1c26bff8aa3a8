//! UTF-8 decoding, as std performs it.
use vstd::prelude::*;
use vstd::string::*;
use vstd::utf8::*;

use crate::text::{has_no_nul, has_no_zero};

verus! {

#[verifier::external_type_specification]
#[verifier::external_body]
pub struct ExUtf8Error(core::str::Utf8Error);

/// What `String::from_utf8_lossy` makes of `b`: the text of `b`, with each
/// invalid sequence replaced by U+FFFD.
pub uninterp spec fn utf8_lossy(b: Seq<u8>) -> Seq<char>;

/// Relies on `std::str::from_utf8`: it succeeds exactly on valid UTF-8 and then
/// returns a string over those same bytes, without copying them.
#[verifier::external_body]
pub(crate) fn str_from_utf8(v: &[u8]) -> (r: Result<&str, core::str::Utf8Error>)
    ensures
        r is Ok <==> valid_utf8(v@),
        r matches Ok(s) ==> s.spec_bytes() == v@,
{
    std::str::from_utf8(v)
}

/// Relies on `String::from_utf8`: it succeeds exactly on valid UTF-8 and then
/// takes the vector over as the string's storage.
#[verifier::external_body]
pub(crate) fn string_from_utf8(v: Vec<u8>) -> (r: Option<String>)
    ensures
        r is Some <==> valid_utf8(v@),
        r matches Some(s) ==> s@ == decode_utf8(v@),
{
    String::from_utf8(v).ok()
}

/// Relies on `String::from_utf8_lossy`: valid UTF-8 decodes unchanged, and
/// otherwise each invalid sequence becomes U+FFFD, so at least one is present.
/// Only invalid sequences are replaced, and U+FFFD is not `'\0'`, so the
/// result holds a `'\0'` only where the bytes hold a `0`.
#[verifier::external_body]
pub(crate) fn string_from_utf8_lossy(v: &[u8]) -> (r: String)
    ensures
        r@ == utf8_lossy(v@),
        valid_utf8(v@) ==> r@ == decode_utf8(v@),
        !valid_utf8(v@) ==> r@.contains('\u{FFFD}'),
        has_no_zero(v@) ==> has_no_nul(r@),
{
    String::from_utf8_lossy(v).into_owned()
}

} // verus!
