//! Conversion of text into null-terminated form, borrowing where the text
//! already is in that form and allocating only where it is not.
use vstd::prelude::*;
use vstd::string::*;

use crate::borrowed::NullTerminatedStr;
use crate::owned::NullTerminatedString;
use crate::text::{
    is_nul_terminated, lemma_encode_terminated, lemma_strip_nul_no_nul, strip_nul, wire,
};

verus! {

/// Null-terminated text that is either borrowed or owned.
#[derive(Debug)]
pub enum NullTerminatedCow<'a> {
    Borrowed(NullTerminatedStr<'a>),
    Owned(NullTerminatedString),
}

impl<'a> View for NullTerminatedCow<'a> {
    type V = Seq<char>;

    /// The text, without its terminator.
    open spec fn view(&self) -> Seq<char> {
        match self {
            NullTerminatedCow::Borrowed(v) => v@,
            NullTerminatedCow::Owned(s) => s@,
        }
    }
}

impl<'a> NullTerminatedCow<'a> {
    /// The borrowed view of the text, whichever form holds it.
    pub fn as_null_terminated_str(&self) -> (r: NullTerminatedStr<'_>)
        ensures
            r@ == self@,
    {
        match self {
            NullTerminatedCow::Borrowed(v) => *v,
            NullTerminatedCow::Owned(s) => s.as_null_terminated_str(),
        }
    }

    /// The owned form of the text, copying it when it is borrowed.
    pub fn into_owned(self) -> (r: NullTerminatedString)
        ensures
            r@ == self@,
    {
        match self {
            NullTerminatedCow::Borrowed(v) => v.to_owned(),
            NullTerminatedCow::Owned(s) => s,
        }
    }
}

/// Values that can be turned into null-terminated text.
pub trait IntoNullTerminatedString<'a>: Sized {
    /// The text that the conversion yields.
    spec fn null_terminated_text(&self) -> Seq<char>;

    /// Converts, borrowing where the value allows it.
    fn into_null_terminated_string(self) -> (r: NullTerminatedCow<'a>)
        ensures
            r@ == self.null_terminated_text(),
    ;
}

/// Borrows a string that already ends in its only `'\0'`, and the empty
/// string as the empty text; any other string is copied without its `'\0'`s.
impl<'a> IntoNullTerminatedString<'a> for &'a str {
    open spec fn null_terminated_text(&self) -> Seq<char> {
        strip_nul(self@)
    }

    fn into_null_terminated_string(self) -> (r: NullTerminatedCow<'a>)
        ensures
            r is Borrowed <==> (self@.len() == 0 || is_nul_terminated(self@)),
            r is Borrowed && self@.len() > 0 ==> wire(r@) == self.spec_bytes(),
    {
        if self.is_empty() {
            let empty = "\0";
            proof {
                reveal_strlit("\0");
                assert(empty@.drop_last() =~= self@);
            }
            NullTerminatedCow::Borrowed(NullTerminatedStr::from_const_str(empty))
        } else {
            match NullTerminatedStr::try_from_str(self) {
                Some(v) => {
                    proof {
                        let p = self@.drop_last();
                        lemma_strip_nul_no_nul(p);
                        assert(p.push('\0') =~= self@);
                        lemma_encode_terminated(p);
                    }
                    NullTerminatedCow::Borrowed(v)
                },
                None => NullTerminatedCow::Owned(NullTerminatedString::from_text(self)),
            }
        }
    }
}

/// Takes the string over with its `'\0'`s removed.
impl IntoNullTerminatedString<'static> for String {
    open spec fn null_terminated_text(&self) -> Seq<char> {
        strip_nul(self@)
    }

    fn into_null_terminated_string(self) -> (r: NullTerminatedCow<'static>)
        ensures
            r is Owned,
    {
        NullTerminatedCow::Owned(NullTerminatedString::from_string(self))
    }
}

impl<'a> IntoNullTerminatedString<'a> for NullTerminatedStr<'a> {
    open spec fn null_terminated_text(&self) -> Seq<char> {
        self@
    }

    fn into_null_terminated_string(self) -> (r: NullTerminatedCow<'a>)
        ensures
            r is Borrowed,
    {
        NullTerminatedCow::Borrowed(self)
    }
}

impl<'a> IntoNullTerminatedString<'a> for NullTerminatedString {
    open spec fn null_terminated_text(&self) -> Seq<char> {
        self@
    }

    fn into_null_terminated_string(self) -> (r: NullTerminatedCow<'a>)
        ensures
            r is Owned,
    {
        NullTerminatedCow::Owned(self)
    }
}

} // verus!
