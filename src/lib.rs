//! UTF-8 text that is at the same time a delimited byte buffer: the text's
//! bytes followed by exactly one `0` byte, with no `0` byte inside.
//!
//! [`NullTerminatedStr`] borrows such a buffer; [`NullTerminatedString`] owns one.
//! Both dereference to the text as a `str`, and compare and hash by that text.

pub mod borrowed;
pub mod decode;
pub mod into_null_terminated_string;
pub mod owned;
pub mod text;

pub use borrowed::{report_err, MalformedTermination, NullTerminatedStr};
pub use into_null_terminated_string::{IntoNullTerminatedString, NullTerminatedCow};
pub use owned::{NullStringFromUtf8Error, NullTerminatedString};
