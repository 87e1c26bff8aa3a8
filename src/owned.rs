//! The owned form: a buffer made from any text by removing its terminators,
//! or checked out of a delimited buffer.
use core::cmp::Ordering;
use core::str::Utf8Error;
use vstd::prelude::*;
use vstd::slice::{slice_subrange, slice_to_vec};
use vstd::string::*;
use vstd::utf8::*;

use crate::borrowed::{compare_text, same_text, NullTerminatedStr};
use crate::decode::{string_from_utf8, string_from_utf8_lossy, utf8_lossy};
use crate::text::{
    content, has_no_nul, is_delimited, is_nul_terminated, lemma_delimited_valid,
    lemma_encode_strip, lemma_no_nul_iff_no_zero, lemma_strip_nul_has_no_nul,
    lemma_strip_nul_keeps, lemma_strip_nul_no_nul, lemma_wire_decodes, strip_nul, strip_zero, text_cmp, wire,
};

verus! {

/// A delimited buffer whose content is not valid UTF-8, returned whole
/// together with the decoding error.
#[derive(Debug)]
pub struct NullStringFromUtf8Error {
    cstring: Vec<u8>,
    utf8_err: Utf8Error,
}

impl View for NullStringFromUtf8Error {
    type V = Seq<u8>;

    /// The rejected buffer, terminator included.
    closed spec fn view(&self) -> Seq<u8> {
        self.cstring@
    }
}

impl NullStringFromUtf8Error {
    /// The decoding error of the buffer's content.
    pub fn utf8_error(&self) -> (r: &Utf8Error) {
        &self.utf8_err
    }

    /// The rejected buffer and the decoding error.
    pub fn into_inner(self) -> (r: (Vec<u8>, Utf8Error))
        ensures
            r.0@ == self@,
    {
        (self.cstring, self.utf8_err)
    }
}

/// Owned UTF-8 text stored as a delimited buffer: the text's bytes followed
/// by exactly one `0`, with no `0` among them. Equality and order compare
/// the text alone; equality also against a `str` or a [`NullTerminatedStr`].
#[derive(Debug, Eq, Ord, Hash)]
pub struct NullTerminatedString {
    inner: String,
}

impl View for NullTerminatedString {
    type V = Seq<char>;

    /// The text, without its terminator.
    closed spec fn view(&self) -> Seq<char> {
        self.inner@.drop_last()
    }
}

impl NullTerminatedString {
    #[verifier::type_invariant]
    spec fn inv(self) -> bool {
        is_nul_terminated(self.inner@)
    }

    /// The buffer for `s` with every `'\0'` removed; never fails.
    pub fn from_text(s: &str) -> (r: Self)
        ensures
            r@ == strip_nul(s@),
            wire(r@) == strip_zero(s.spec_bytes()).push(0u8),
    {
        let bytes = s.as_bytes();
        let mut buf: Vec<u8> = Vec::new();
        let mut i: usize = 0;
        while i < bytes.len()
            invariant
                i <= bytes@.len(),
                buf@ == strip_zero(bytes@.subrange(0, i as int)),
            decreases bytes@.len() - i,
        {
            assert(bytes@.subrange(0, i + 1).drop_last() =~= bytes@.subrange(0, i as int));
            if bytes[i] != 0 {
                buf.push(bytes[i]);
            }
            i += 1;
        }
        let ghost t = strip_nul(s@);
        proof {
            assert(bytes@.subrange(0, bytes@.len() as int) =~= bytes@);
            lemma_encode_strip(s@);
        }
        buf.push(0);
        proof {
            assert(buf@ =~= wire(t));
            lemma_wire_decodes(t);
            lemma_strip_nul_has_no_nul(s@);
            assert(t.push('\0').drop_last() =~= t);
        }
        let inner = string_from_utf8(buf).unwrap();
        NullTerminatedString { inner }
    }

    /// The buffer for `s` with every `'\0'` removed; never fails.
    pub fn from_string(s: String) -> (r: Self)
        ensures
            r@ == strip_nul(s@),
    {
        Self::from_text(s.as_str())
    }

    /// Takes over the delimited buffer `cstring`, whose content is known to be valid UTF-8.
    pub fn from_cstring_unchecked(cstring: Vec<u8>) -> (r: Self)
        requires
            is_delimited(cstring@),
            valid_utf8(content(cstring@)),
        ensures
            r@ == decode_utf8(content(cstring@)),
    {
        proof {
            lemma_delimited_valid(cstring@);
            lemma_no_nul_iff_no_zero(decode_utf8(content(cstring@)));
            decode_utf8_encode_utf8(content(cstring@));
            assert(decode_utf8(content(cstring@)).push('\0').drop_last() =~= decode_utf8(
                content(cstring@),
            ));
        }
        let inner = string_from_utf8(cstring).unwrap();
        NullTerminatedString { inner }
    }

    /// Takes over the delimited buffer `cstring` when its content is valid
    /// UTF-8; otherwise hands it back with the decoding error.
    pub fn from_cstring(cstring: Vec<u8>) -> (r: Result<Self, NullStringFromUtf8Error>)
        requires
            is_delimited(cstring@),
        ensures
            r is Ok <==> valid_utf8(content(cstring@)),
            r matches Ok(v) ==> v@ == decode_utf8(content(cstring@)),
            r matches Err(e) ==> e@ == cstring@,
    {
        match NullTerminatedStr::from_cstr(cstring.as_slice()) {
            Ok(_) => Ok(Self::from_cstring_unchecked(cstring)),
            Err(utf8_err) => Err(NullStringFromUtf8Error { cstring, utf8_err }),
        }
    }

    /// Takes over the delimited buffer `cstring`; where its content is not
    /// valid UTF-8, the buffer is rebuilt from the text that replaces each
    /// invalid sequence with U+FFFD. Never fails.
    pub fn from_cstring_lossy(cstring: Vec<u8>) -> (r: Self)
        requires
            is_delimited(cstring@),
        ensures
            valid_utf8(content(cstring@)) ==> r@ == decode_utf8(content(cstring@)),
            !valid_utf8(content(cstring@)) ==> r@ == strip_nul(utf8_lossy(content(cstring@))),
            !valid_utf8(content(cstring@)) ==> r@ == utf8_lossy(content(cstring@)),
            !valid_utf8(content(cstring@)) ==> r@.contains('\u{FFFD}'),
            has_no_nul(r@),
    {
        let r = match Self::from_cstring(cstring) {
            Ok(s) => s,
            Err(e) => {
                let (bytes, _) = e.into_inner();
                let n = bytes.len() - 1;
                let c = slice_subrange(bytes.as_slice(), 0, n);
                assert(c@ =~= content(cstring@));
                let repaired = string_from_utf8_lossy(c);
                proof {
                    lemma_strip_nul_keeps(repaired@, '\u{FFFD}');
                    lemma_strip_nul_no_nul(repaired@);
                }
                Self::from_text(repaired.as_str())
            },
        };
        proof {
            use_type_invariant(&r);
        }
        r
    }

    /// The borrowed view of this buffer.
    pub fn as_null_terminated_str(&self) -> (r: NullTerminatedStr<'_>)
        ensures
            r@ == self@,
    {
        proof {
            use_type_invariant(self);
        }
        NullTerminatedStr::from_const_str(self.inner.as_str())
    }

    /// The text, without its terminator; it holds no `'\0'`.
    pub fn as_str(&self) -> (r: &str)
        ensures
            r@ == self@,
            has_no_nul(r@),
    {
        self.as_null_terminated_str().as_str()
    }

    /// The delimited buffer: the text's UTF-8 bytes and the terminator.
    pub fn as_c_str(&self) -> (r: &[u8])
        ensures
            r@ == wire(self@),
    {
        self.as_null_terminated_str().as_c_str()
    }

    /// A copy of the text, without its terminator.
    pub fn into_string(self) -> (r: String)
        ensures
            r@ == self@,
    {
        self.as_str().to_owned()
    }

    /// A copy of the delimited buffer, terminator included.
    pub fn into_c_string(self) -> (r: Vec<u8>)
        ensures
            r@ == wire(self@),
    {
        slice_to_vec(self.as_c_str())
    }
}

impl Clone for NullTerminatedString {
    fn clone(&self) -> (r: Self)
        ensures
            r@ == self@,
    {
        proof {
            use_type_invariant(self);
        }
        NullTerminatedString { inner: self.inner.clone() }
    }
}

impl<'a> NullTerminatedStr<'a> {
    /// An owned copy of this view.
    pub fn to_owned(&self) -> (r: NullTerminatedString)
        ensures
            r@ == self@,
    {
        let text = self.as_str();
        let bytes = self.as_c_str();
        proof {
            lemma_no_nul_iff_no_zero(text@);
            lemma_wire_decodes(text@);
            assert(wire(text@).drop_last() =~= encode_utf8(text@));
            encode_utf8_valid_utf8(text@);
            encode_utf8_decode_utf8(text@);
        }
        NullTerminatedString::from_cstring_unchecked(slice_to_vec(bytes))
    }
}

impl PartialEq for NullTerminatedString {
    fn eq(&self, other: &Self) -> (r: bool) {
        proof {
            use_type_invariant(self);
            use_type_invariant(other);
            assert(self.inner@ =~= self@.push('\0'));
            assert(other.inner@ =~= other@.push('\0'));
        }
        self.inner == other.inner
    }
}

impl vstd::std_specs::cmp::PartialEqSpecImpl for NullTerminatedString {
    open spec fn obeys_eq_spec() -> bool {
        true
    }

    open spec fn eq_spec(&self, other: &Self) -> bool {
        self@ == other@
    }
}

impl PartialEq<str> for NullTerminatedString {
    fn eq(&self, other: &str) -> (r: bool) {
        same_text(self.as_str(), other)
    }
}

impl vstd::std_specs::cmp::PartialEqSpecImpl<str> for NullTerminatedString {
    open spec fn obeys_eq_spec() -> bool {
        true
    }

    open spec fn eq_spec(&self, other: &str) -> bool {
        self@ == other@
    }
}

impl<'a> PartialEq<NullTerminatedStr<'a>> for NullTerminatedString {
    fn eq(&self, other: &NullTerminatedStr<'a>) -> (r: bool) {
        same_text(self.as_str(), other.as_str())
    }
}

impl<'a> vstd::std_specs::cmp::PartialEqSpecImpl<NullTerminatedStr<'a>> for NullTerminatedString {
    open spec fn obeys_eq_spec() -> bool {
        true
    }

    open spec fn eq_spec(&self, other: &NullTerminatedStr<'a>) -> bool {
        self@ == other@
    }
}

impl<'a> PartialEq<NullTerminatedString> for NullTerminatedStr<'a> {
    fn eq(&self, other: &NullTerminatedString) -> (r: bool) {
        same_text(self.as_str(), other.as_str())
    }
}

impl<'a> vstd::std_specs::cmp::PartialEqSpecImpl<NullTerminatedString> for NullTerminatedStr<'a> {
    open spec fn obeys_eq_spec() -> bool {
        true
    }

    open spec fn eq_spec(&self, other: &NullTerminatedString) -> bool {
        self@ == other@
    }
}

impl PartialOrd for NullTerminatedString {
    fn partial_cmp(&self, other: &Self) -> (r: Option<Ordering>) {
        Some(compare_text(self.as_str(), other.as_str()))
    }
}

impl vstd::std_specs::cmp::PartialOrdSpecImpl for NullTerminatedString {
    open spec fn obeys_partial_cmp_spec() -> bool {
        true
    }

    open spec fn partial_cmp_spec(&self, other: &Self) -> Option<Ordering> {
        Some(text_cmp(self@, other@))
    }
}

impl core::ops::Deref for NullTerminatedString {
    type Target = str;

    fn deref(&self) -> (r: &str)
        ensures
            r@ == self@,
            has_no_nul(r@),
    {
        self.as_str()
    }
}

impl<'a> From<&'a str> for NullTerminatedString {
    fn from(s: &'a str) -> (r: Self)
        ensures
            r@ == strip_nul(s@),
    {
        Self::from_text(s)
    }
}

/// The result is given by the `ensures` of `from`, over the view.
impl<'a> vstd::std_specs::convert::FromSpecImpl<&'a str> for NullTerminatedString {
    open spec fn obeys_from_spec() -> bool {
        false
    }

    open spec fn from_spec(s: &'a str) -> Self {
        arbitrary()
    }
}

impl From<String> for NullTerminatedString {
    fn from(s: String) -> (r: Self)
        ensures
            r@ == strip_nul(s@),
    {
        Self::from_string(s)
    }
}

/// The result is given by the `ensures` of `from`, over the view.
impl vstd::std_specs::convert::FromSpecImpl<String> for NullTerminatedString {
    open spec fn obeys_from_spec() -> bool {
        false
    }

    open spec fn from_spec(s: String) -> Self {
        arbitrary()
    }
}

impl From<NullTerminatedString> for String {
    fn from(s: NullTerminatedString) -> (r: String)
        ensures
            r@ == s@,
    {
        s.into_string()
    }
}

/// The result is given by the `ensures` of `from`, over the view.
impl vstd::std_specs::convert::FromSpecImpl<NullTerminatedString> for String {
    open spec fn obeys_from_spec() -> bool {
        false
    }

    open spec fn from_spec(s: NullTerminatedString) -> String {
        arbitrary()
    }
}

} // verus!
