//! The borrowed form: a checked view of a delimited buffer as text.
use core::cmp::Ordering;
use core::str::Utf8Error;
use vstd::prelude::*;
use vstd::slice::slice_subrange;
use vstd::string::*;
use vstd::utf8::*;

use crate::decode::str_from_utf8;
use crate::text::{
    bytes_cmp, content, has_no_nul, has_no_zero, is_delimited, is_nul_terminated,
    lemma_delimited_valid, lemma_encode_injective, lemma_encode_terminated,
    lemma_no_nul_iff_no_zero, lemma_terminated_iff_delimited, text_cmp, wire,
};

verus! {

/// Why a string is not text followed by exactly one `'\0'`.
#[derive(Debug, Clone, Copy, PartialEq, Eq, Structural)]
pub enum MalformedTermination {
    /// The string is empty, so there is no terminator at all.
    Empty,
    /// The last byte of the string is not `0`.
    Unterminated,
    /// A `0` byte stands before the last one, at this byte offset.
    InteriorNul { offset: usize },
}

/// Diagnoses a string meant to be text followed by exactly one `'\0'`:
/// `None` when it is one, else the first fault found, checked in the order
/// empty, last byte, interior bytes.
pub fn report_err(s: &str) -> (r: Option<MalformedTermination>)
    ensures
        r is None <==> is_delimited(s.spec_bytes()),
        r is None <==> is_nul_terminated(s@),
        r == Some(MalformedTermination::Empty) <==> s.spec_bytes().len() == 0,
        r == Some(MalformedTermination::Unterminated) <==> (s.spec_bytes().len() > 0
            && s.spec_bytes().last() != 0),
        r matches Some(MalformedTermination::InteriorNul { offset }) ==> {
            let b = s.spec_bytes();
            &&& b.len() > 0
            &&& b.last() == 0
            &&& offset < b.len() - 1
            &&& b[offset as int] == 0
            &&& forall|j: int| 0 <= j < offset ==> b[j] != 0
        },
{
    proof {
        lemma_terminated_iff_delimited(s@);
    }
    let bytes = s.as_bytes();
    let len = bytes.len();
    if len == 0 {
        return Some(MalformedTermination::Empty);
    }
    let n = len - 1;
    if bytes[n] != 0 {
        return Some(MalformedTermination::Unterminated);
    }
    let mut i: usize = 0;
    while i < n
        invariant
            bytes@ == s.spec_bytes(),
            n == bytes@.len() - 1,
            bytes@[n as int] == 0,
            is_nul_terminated(s@) <==> is_delimited(s.spec_bytes()),
            i <= n,
            forall|j: int| 0 <= j < i ==> bytes@[j] != 0,
        decreases n - i,
    {
        if bytes[i] == 0 {
            assert(bytes@.drop_last()[i as int] == 0);
            return Some(MalformedTermination::InteriorNul { offset: i });
        }
        i += 1;
    }
    assert(has_no_zero(bytes@.drop_last()));
    None
}

/// Whether two strings hold the same text, compared byte by byte.
pub(crate) fn same_text(a: &str, b: &str) -> (r: bool)
    ensures
        r == (a@ == b@),
{
    let x = a.as_bytes();
    let y = b.as_bytes();
    if x.len() != y.len() {
        proof {
            if a@ == b@ {
                assert(x@ == y@);
            }
        }
        return false;
    }
    let mut i: usize = 0;
    while i < x.len()
        invariant
            x@ == a.spec_bytes(),
            y@ == b.spec_bytes(),
            x@.len() == y@.len(),
            i <= x@.len(),
            forall|j: int| 0 <= j < i ==> x@[j] == y@[j],
        decreases x@.len() - i,
    {
        if x[i] != y[i] {
            proof {
                if a@ == b@ {
                    assert(x@ == y@);
                }
            }
            return false;
        }
        i += 1;
    }
    proof {
        assert(x@ =~= y@);
        lemma_encode_injective(a@, b@);
    }
    true
}

/// The order of two strings, compared byte by byte.
pub(crate) fn compare_text(a: &str, b: &str) -> (r: Ordering)
    ensures
        r == text_cmp(a@, b@),
{
    let x = a.as_bytes();
    let y = b.as_bytes();
    let mut i: usize = 0;
    assert(x@.subrange(0, x@.len() as int) =~= x@);
    assert(y@.subrange(0, y@.len() as int) =~= y@);
    while i < x.len() && i < y.len()
        invariant
            x@ == a.spec_bytes(),
            y@ == b.spec_bytes(),
            i <= x@.len(),
            i <= y@.len(),
            bytes_cmp(x@, y@) == bytes_cmp(
                x@.subrange(i as int, x@.len() as int),
                y@.subrange(i as int, y@.len() as int),
            ),
        decreases x@.len() - i,
    {
        let ghost xs = x@.subrange(i as int, x@.len() as int);
        let ghost ys = y@.subrange(i as int, y@.len() as int);
        assert(xs[0] == x@[i as int] && ys[0] == y@[i as int]);
        if x[i] < y[i] {
            return Ordering::Less;
        }
        if x[i] > y[i] {
            return Ordering::Greater;
        }
        assert(xs.drop_first() =~= x@.subrange(i + 1, x@.len() as int));
        assert(ys.drop_first() =~= y@.subrange(i + 1, y@.len() as int));
        i += 1;
    }
    if x.len() == y.len() {
        Ordering::Equal
    } else if i == x.len() {
        Ordering::Less
    } else {
        Ordering::Greater
    }
}

/// Borrowed UTF-8 text together with the delimited buffer that carries it:
/// the text's bytes followed by exactly one `0`, with no `0` among them.
/// Equality and order compare the text alone, also against a `str`.
#[derive(Debug, Clone, Copy, Eq, Ord, Hash)]
pub struct NullTerminatedStr<'a> {
    text: &'a str,
    bytes: &'a [u8],
}

impl<'a> View for NullTerminatedStr<'a> {
    type V = Seq<char>;

    /// The text, without its terminator.
    closed spec fn view(&self) -> Seq<char> {
        self.text@
    }
}

impl<'a> NullTerminatedStr<'a> {
    #[verifier::type_invariant]
    spec fn inv(self) -> bool {
        &&& self.bytes@ == wire(self.text@)
        &&& has_no_nul(self.text@)
    }

    /// The delimited buffer: the text's UTF-8 bytes and the terminator.
    pub fn as_c_str(&self) -> (r: &'a [u8])
        ensures
            r@ == wire(self@),
    {
        proof {
            use_type_invariant(self);
        }
        self.bytes
    }

    /// The text, without its terminator; it holds no `'\0'`.
    pub fn as_str(&self) -> (r: &'a str)
        ensures
            r@ == self@,
            has_no_nul(r@),
    {
        proof {
            use_type_invariant(self);
        }
        self.text
    }

    /// Views `s`, which must be text followed by exactly one `'\0'`.
    pub fn from_const_str(s: &'a str) -> (r: Self)
        requires
            is_nul_terminated(s@),
        ensures
            r@ == s@.drop_last(),
    {
        let bytes = s.as_bytes();
        let n = bytes.len() - 1;
        let ghost t = s@.drop_last();
        proof {
            assert(t.push('\0') =~= s@);
            lemma_encode_terminated(t);
            encode_utf8_valid_utf8(s@);
            is_char_boundary_iff_is_leading_byte(bytes@, n as int);
        }
        let (text, _) = s.split_at(n);
        proof {
            assert(text.spec_bytes() =~= encode_utf8(t));
            lemma_encode_injective(text@, t);
            lemma_no_nul_iff_no_zero(t);
        }
        NullTerminatedStr { text, bytes }
    }

    /// Views `s` when it is text followed by exactly one `'\0'`.
    pub fn try_from_str(s: &'a str) -> (r: Option<Self>)
        ensures
            r is Some <==> is_nul_terminated(s@),
            r matches Some(v) ==> v@ == s@.drop_last(),
    {
        if report_err(s).is_none() {
            Some(Self::from_const_str(s))
        } else {
            None
        }
    }

    /// Views the delimited buffer `cstr` as text when its content is valid
    /// UTF-8, and otherwise returns the decoding error.
    pub fn from_cstr(cstr: &'a [u8]) -> (r: Result<Self, Utf8Error>)
        requires
            is_delimited(cstr@),
        ensures
            r is Ok <==> valid_utf8(content(cstr@)),
            r matches Ok(v) ==> {
                &&& v@ == decode_utf8(content(cstr@))
                &&& encode_utf8(v@) == content(cstr@)
                &&& wire(v@) == cstr@
            },
    {
        let n = cstr.len() - 1;
        let c = slice_subrange(cstr, 0, n);
        assert(c@ =~= content(cstr@));
        match str_from_utf8(c) {
            Ok(text) => {
                proof {
                    lemma_delimited_valid(cstr@);
                    decode_utf8_encode_utf8(c@);
                    lemma_encode_injective(text@, decode_utf8(c@));
                    lemma_no_nul_iff_no_zero(text@);
                }
                Ok(NullTerminatedStr { text, bytes: cstr })
            },
            Err(e) => Err(e),
        }
    }

    /// Views the delimited buffer `cstr`, whose content is known to be valid UTF-8.
    pub fn from_cstr_unchecked(cstr: &'a [u8]) -> (r: Self)
        requires
            is_delimited(cstr@),
            valid_utf8(content(cstr@)),
        ensures
            r@ == decode_utf8(content(cstr@)),
            wire(r@) == cstr@,
    {
        Self::from_cstr(cstr).unwrap()
    }
}

impl<'a> PartialEq for NullTerminatedStr<'a> {
    fn eq(&self, other: &Self) -> (r: bool) {
        same_text(self.text, other.text)
    }
}

impl<'a> vstd::std_specs::cmp::PartialEqSpecImpl for NullTerminatedStr<'a> {
    open spec fn obeys_eq_spec() -> bool {
        true
    }

    open spec fn eq_spec(&self, other: &Self) -> bool {
        self@ == other@
    }
}

impl<'a> PartialEq<str> for NullTerminatedStr<'a> {
    fn eq(&self, other: &str) -> (r: bool) {
        same_text(self.text, other)
    }
}

impl<'a> vstd::std_specs::cmp::PartialEqSpecImpl<str> for NullTerminatedStr<'a> {
    open spec fn obeys_eq_spec() -> bool {
        true
    }

    open spec fn eq_spec(&self, other: &str) -> bool {
        self@ == other@
    }
}

impl<'a> PartialEq<NullTerminatedStr<'a>> for str {
    fn eq(&self, other: &NullTerminatedStr<'a>) -> (r: bool) {
        same_text(self, other.text)
    }
}

impl<'a> vstd::std_specs::cmp::PartialEqSpecImpl<NullTerminatedStr<'a>> for str {
    open spec fn obeys_eq_spec() -> bool {
        true
    }

    open spec fn eq_spec(&self, other: &NullTerminatedStr<'a>) -> bool {
        self@ == other@
    }
}

impl<'a> PartialOrd for NullTerminatedStr<'a> {
    fn partial_cmp(&self, other: &Self) -> (r: Option<Ordering>) {
        Some(compare_text(self.text, other.text))
    }
}

impl<'a> vstd::std_specs::cmp::PartialOrdSpecImpl for NullTerminatedStr<'a> {
    open spec fn obeys_partial_cmp_spec() -> bool {
        true
    }

    open spec fn partial_cmp_spec(&self, other: &Self) -> Option<Ordering> {
        Some(text_cmp(self@, other@))
    }
}

impl<'a> PartialOrd<str> for NullTerminatedStr<'a> {
    fn partial_cmp(&self, other: &str) -> (r: Option<Ordering>) {
        Some(compare_text(self.text, other))
    }
}

impl<'a> vstd::std_specs::cmp::PartialOrdSpecImpl<str> for NullTerminatedStr<'a> {
    open spec fn obeys_partial_cmp_spec() -> bool {
        true
    }

    open spec fn partial_cmp_spec(&self, other: &str) -> Option<Ordering> {
        Some(text_cmp(self@, other@))
    }
}

impl<'a> PartialOrd<NullTerminatedStr<'a>> for str {
    fn partial_cmp(&self, other: &NullTerminatedStr<'a>) -> (r: Option<Ordering>) {
        Some(compare_text(self, other.text))
    }
}

impl<'a> vstd::std_specs::cmp::PartialOrdSpecImpl<NullTerminatedStr<'a>> for str {
    open spec fn obeys_partial_cmp_spec() -> bool {
        true
    }

    open spec fn partial_cmp_spec(&self, other: &NullTerminatedStr<'a>) -> Option<Ordering> {
        Some(text_cmp(self@, other@))
    }
}

impl<'a> core::ops::Deref for NullTerminatedStr<'a> {
    type Target = str;

    fn deref(&self) -> (r: &str)
        ensures
            r@ == self@,
            has_no_nul(r@),
    {
        proof {
            use_type_invariant(self);
        }
        self.text
    }
}

} // verus!
