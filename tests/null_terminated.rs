use std::cmp::Ordering;
use std::collections::hash_map::DefaultHasher;
use std::hash::{Hash, Hasher};

use null_terminated_str::{
    report_err, IntoNullTerminatedString, MalformedTermination, NullTerminatedCow,
    NullTerminatedStr, NullTerminatedString,
};

fn hash_of<T: Hash>(t: &T) -> u64 {
    let mut h = DefaultHasher::new();
    t.hash(&mut h);
    h.finish()
}

#[test]
fn test_de_ser_null_terminated_str() {
    for s in ["\0", "abcde\0"] {
        let v = NullTerminatedStr::from_const_str(s);
        assert_eq!(v.as_c_str(), s.as_bytes());
        assert_eq!(v.to_owned().as_c_str(), s.as_bytes());
        let back = NullTerminatedStr::try_from_str(s).unwrap();
        assert!(back == v);
    }
}

#[test]
fn try_from_str_rejects_empty() {
    assert!(NullTerminatedStr::try_from_str("").is_none());
}

#[test]
fn try_from_str_accepts_terminator_only() {
    let v = NullTerminatedStr::try_from_str("\0").unwrap();
    assert_eq!(v.as_str(), "");
    assert_eq!(v.as_c_str(), b"\0");
}

#[test]
fn try_from_str_rejects_interior_terminator() {
    assert!(NullTerminatedStr::try_from_str("a\0b\0").is_none());
    assert!(NullTerminatedStr::try_from_str("h\0a\0").is_none());
}

#[test]
fn try_from_str_rejects_missing_terminator() {
    assert!(NullTerminatedStr::try_from_str("ha").is_none());
    assert!(NullTerminatedStr::try_from_str("h\0a").is_none());
}

#[test]
fn try_from_str_accepts_single_char() {
    let v = NullTerminatedStr::try_from_str("a\0").unwrap();
    assert_eq!(v.as_str(), "a");
    assert_eq!(v.as_c_str(), b"a\0");
}

#[test]
fn try_from_str_keeps_multibyte_text() {
    let v = NullTerminatedStr::try_from_str("h\u{e9}\u{1F600}\0").unwrap();
    assert_eq!(v.as_str(), "h\u{e9}\u{1F600}");
}

#[test]
fn report_err_names_each_fault() {
    assert_eq!(report_err(""), Some(MalformedTermination::Empty));
    assert_eq!(report_err("ab"), Some(MalformedTermination::Unterminated));
    assert_eq!(
        report_err("a\0b\0"),
        Some(MalformedTermination::InteriorNul { offset: 1 })
    );
    assert_eq!(
        report_err("\0\0"),
        Some(MalformedTermination::InteriorNul { offset: 0 })
    );
    assert_eq!(report_err("ab\0"), None);
    assert_eq!(report_err("\0"), None);
}

#[test]
fn from_text_strips_terminators() {
    let s = NullTerminatedString::from_text("hi\0there");
    assert_eq!(s.as_str(), "hithere");
    assert_eq!(s.as_c_str(), b"hithere\0");
}

#[test]
fn from_text_of_empty_text() {
    let s = NullTerminatedString::from_text("");
    assert_eq!(s.as_str(), "");
    assert_eq!(s.as_c_str(), b"\0");
}

#[test]
fn from_text_of_only_terminators() {
    let s = NullTerminatedString::from_text("\0\0\0");
    assert_eq!(s.as_str(), "");
    assert_eq!(s.as_c_str(), b"\0");
}

#[test]
fn from_text_is_idempotent() {
    for t in ["a\0\0b\0", "plain", "", "\0x\u{e9}\0"] {
        let once = NullTerminatedString::from_text(t);
        let twice = NullTerminatedString::from_text(once.as_str());
        assert!(once == twice);
        assert_eq!(once.as_c_str(), twice.as_c_str());
    }
}

#[test]
fn from_string_strips_terminators() {
    let s = NullTerminatedString::from_string(String::from("\0a\0b"));
    assert_eq!(s.as_str(), "ab");
    assert_eq!(s.into_string(), "ab");
}

#[test]
fn from_cstr_accepts_valid_buffer() {
    let buf = b"hello\0";
    let v = NullTerminatedStr::from_cstr(buf).unwrap();
    assert_eq!(v.as_str(), "hello");
    assert_eq!(v.as_c_str(), buf);
    assert_eq!(v.as_c_str().as_ptr(), buf.as_ptr());
}

#[test]
fn from_cstr_accepts_empty_text() {
    let v = NullTerminatedStr::from_cstr(b"\0").unwrap();
    assert_eq!(v.as_str(), "");
}

#[test]
fn from_cstr_rejects_invalid_utf8() {
    let e = NullTerminatedStr::from_cstr(b"a\xffb\0").unwrap_err();
    assert_eq!(e.valid_up_to(), 1);
    let e = NullTerminatedStr::from_cstr(b"ab\xe2\x82\0").unwrap_err();
    assert_eq!(e.valid_up_to(), 2);
    assert_eq!(e.error_len(), None);
}

#[test]
fn from_cstr_unchecked_views_buffer() {
    let v = NullTerminatedStr::from_cstr_unchecked("x\u{e9}\0".as_bytes());
    assert_eq!(v.as_str(), "x\u{e9}");
}

#[test]
fn from_cstring_takes_valid_buffer() {
    let s = NullTerminatedString::from_cstring(b"abc\0".to_vec()).unwrap();
    assert_eq!(s.as_str(), "abc");
    assert_eq!(s.into_c_string(), b"abc\0".to_vec());
}

#[test]
fn from_cstring_returns_invalid_buffer() {
    let e = NullTerminatedString::from_cstring(b"a\xffb\0".to_vec()).unwrap_err();
    let (buf, err) = e.into_inner();
    assert_eq!(buf, b"a\xffb\0".to_vec());
    assert_eq!(err.valid_up_to(), 1);
}

#[test]
fn from_cstring_unchecked_takes_buffer() {
    let s = NullTerminatedString::from_cstring_unchecked(b"ok\0".to_vec());
    assert_eq!(s.as_str(), "ok");
}

#[test]
fn from_cstring_lossy_replaces_invalid_sequences() {
    let s = NullTerminatedString::from_cstring_lossy(b"a\xffb\0".to_vec());
    assert_eq!(s.as_str(), "a\u{FFFD}b");
    assert_eq!(s.as_c_str(), "a\u{FFFD}b\0".as_bytes());
    let bytes = s.as_c_str();
    assert!(bytes[..bytes.len() - 1].iter().all(|b| *b != 0));
    assert_eq!(bytes[bytes.len() - 1], 0);
}

#[test]
fn from_cstring_lossy_replaces_each_invalid_sequence() {
    let s = NullTerminatedString::from_cstring_lossy(b"\xff\xfex\xc3\0".to_vec());
    assert_eq!(s.as_str(), "\u{FFFD}\u{FFFD}x\u{FFFD}");
}

#[test]
fn from_cstring_lossy_keeps_valid_buffer() {
    let s = NullTerminatedString::from_cstring_lossy("caf\u{e9}\0".as_bytes().to_vec());
    assert_eq!(s.as_str(), "caf\u{e9}");
}

#[test]
fn to_owned_round_trips() {
    let v = NullTerminatedStr::try_from_str("round\0").unwrap();
    let owned = v.to_owned();
    let again = owned.as_null_terminated_str();
    assert!(again == v);
    assert_eq!(again.as_str(), v.as_str());
    assert_eq!(again.as_c_str(), v.as_c_str());
}

#[test]
fn equality_across_types() {
    let v = NullTerminatedStr::try_from_str("ok\0").unwrap();
    let o = NullTerminatedString::from_text("ok");
    assert!(v == o);
    assert!(o == v);
    assert!(v == *"ok");
    assert!(*"ok" == v);
    assert!(o == *"ok");
    assert!(v != *"no");
    assert!(o != NullTerminatedString::from_text("no"));
}

#[test]
fn hashing_follows_text() {
    let a = NullTerminatedStr::try_from_str("key\0").unwrap();
    let b = NullTerminatedString::from_text("k\0ey");
    assert_eq!(hash_of(&a), hash_of(&b.as_null_terminated_str()));
    let c = b.clone();
    assert_eq!(hash_of(&b), hash_of(&c));
    assert!(b == c);
}

#[test]
fn ordering_follows_text() {
    let abc = NullTerminatedStr::try_from_str("abc\0").unwrap();
    let abd = NullTerminatedStr::try_from_str("abd\0").unwrap();
    let ab = NullTerminatedStr::try_from_str("ab\0").unwrap();
    assert!(abc < abd);
    assert!(ab < abc);
    assert_eq!(abc.partial_cmp(&abc), Some(Ordering::Equal));
    assert_eq!(abc.partial_cmp("abb"), Some(Ordering::Greater));
    assert!(*"abb" < abc);
    assert_eq!(abc.cmp(&abd), Ordering::Less);
    let x = NullTerminatedString::from_text("ab");
    let y = NullTerminatedString::from_text("abc");
    assert!(x < y);
    assert_eq!(x.cmp(&y), Ordering::Less);
}

#[test]
fn into_null_terminated_string_borrows_when_it_can() {
    match "".into_null_terminated_string() {
        NullTerminatedCow::Borrowed(v) => assert_eq!(v.as_str(), ""),
        NullTerminatedCow::Owned(_) => panic!("empty text should be borrowed"),
    }
    match "ab\0".into_null_terminated_string() {
        NullTerminatedCow::Borrowed(v) => assert_eq!(v.as_str(), "ab"),
        NullTerminatedCow::Owned(_) => panic!("terminated text should be borrowed"),
    }
    match "a\0b".into_null_terminated_string() {
        NullTerminatedCow::Owned(s) => assert_eq!(s.as_str(), "ab"),
        NullTerminatedCow::Borrowed(_) => panic!("unterminated text must be copied"),
    }
}

#[test]
fn into_null_terminated_string_of_owned_values() {
    let c = String::from("x\0y").into_null_terminated_string();
    assert_eq!(c.as_null_terminated_str().as_str(), "xy");
    let v = NullTerminatedStr::try_from_str("v\0").unwrap();
    assert!(matches!(v.into_null_terminated_string(), NullTerminatedCow::Borrowed(_)));
    let o = NullTerminatedString::from_text("o").into_null_terminated_string();
    assert_eq!(o.into_owned().as_str(), "o");
}

#[test]
fn both_forms_dereference_to_text() {
    let v = NullTerminatedStr::try_from_str("deref\0").unwrap();
    let o = NullTerminatedString::from_text("deref");
    assert_eq!(&*v, "deref");
    assert_eq!(&*o, "deref");
    assert_eq!(v.len(), 5);
    assert!(o.starts_with("de"));
}

#[test]
fn from_impls_delegate_to_constructors() {
    let a = NullTerminatedString::from("x\0y");
    assert_eq!(a.as_str(), "xy");
    let b = NullTerminatedString::from(String::from("\0z"));
    assert_eq!(b.as_str(), "z");
    let s: String = String::from(a);
    assert_eq!(s, "xy");
}

#[test]
fn error_exposes_utf8_error() {
    let e = NullTerminatedString::from_cstring(b"ab\xff\0".to_vec()).unwrap_err();
    assert_eq!(e.utf8_error().valid_up_to(), 2);
    assert_eq!(e.utf8_error().error_len(), Some(1));
}

#[test]
fn string_conversion_is_always_owned() {
    assert!(matches!(
        String::from("ab\0").into_null_terminated_string(),
        NullTerminatedCow::Owned(_)
    ));
    assert!(matches!(
        String::new().into_null_terminated_string(),
        NullTerminatedCow::Owned(_)
    ));
}

#[test]
fn borrowed_conversion_shares_storage() {
    let s = "share\0";
    match s.into_null_terminated_string() {
        NullTerminatedCow::Borrowed(v) => {
            assert_eq!(v.as_c_str(), s.as_bytes());
            assert_eq!(v.as_c_str().as_ptr(), s.as_ptr());
            assert_eq!(&*v, "share");
        }
        NullTerminatedCow::Owned(_) => panic!("terminated text should be borrowed"),
    }
}

#[test]
fn deref_of_promoted_view_keeps_text() {
    let v = NullTerminatedStr::try_from_str("promote\0").unwrap();
    let o = v.to_owned();
    assert_eq!(&*o, &*v);
    assert!(!o.contains('\0'));
    assert_eq!(o.as_c_str().as_ptr(), o.as_null_terminated_str().as_c_str().as_ptr());
}
