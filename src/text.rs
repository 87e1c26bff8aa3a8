//! The mathematical model shared by the borrowed and owned strings: text as a
//! sequence of `char`s, its UTF-8 bytes, and the terminator that ends them.
use vstd::prelude::*;
use core::cmp::Ordering;
use vstd::utf8::*;

verus! {

/// No `char` of `t` is the terminator `'\0'`.
pub open spec fn has_no_nul(t: Seq<char>) -> bool {
    forall|i: int| 0 <= i < t.len() ==> #[trigger] t[i] != '\0'
}

/// No byte of `b` is the terminator byte `0`.
pub open spec fn has_no_zero(b: Seq<u8>) -> bool {
    forall|i: int| 0 <= i < b.len() ==> #[trigger] b[i] != 0
}

/// Text that ends with exactly one `'\0'` and holds no other.
pub open spec fn is_nul_terminated(s: Seq<char>) -> bool {
    &&& s.len() >= 1
    &&& s.last() == '\0'
    &&& has_no_nul(s.drop_last())
}

/// A delimited buffer: bytes that end with exactly one `0` and hold no other.
pub open spec fn is_delimited(b: Seq<u8>) -> bool {
    &&& b.len() >= 1
    &&& b.last() == 0
    &&& has_no_zero(b.drop_last())
}

/// The bytes of a delimited buffer before its terminator.
pub open spec fn content(b: Seq<u8>) -> Seq<u8> {
    b.drop_last()
}

/// The delimited buffer that carries the text `t`: its UTF-8 encoding and one `0`.
pub open spec fn wire(t: Seq<char>) -> Seq<u8> {
    encode_utf8(t).push(0u8)
}

/// `t` with every `'\0'` removed.
pub open spec fn strip_nul(t: Seq<char>) -> Seq<char>
    decreases t.len(),
{
    if t.len() == 0 {
        t
    } else if t.last() == '\0' {
        strip_nul(t.drop_last())
    } else {
        strip_nul(t.drop_last()).push(t.last())
    }
}

/// `b` with every `0` byte removed.
pub open spec fn strip_zero(b: Seq<u8>) -> Seq<u8>
    decreases b.len(),
{
    if b.len() == 0 {
        b
    } else if b.last() == 0 {
        strip_zero(b.drop_last())
    } else {
        strip_zero(b.drop_last()).push(b.last())
    }
}

proof fn lemma_high_bits_nonzero(x: u8)
    ensures
        (0x80u8 | x) != 0,
        (0xC0u8 | x) != 0,
        (0xE0u8 | x) != 0,
        (0xF0u8 | x) != 0,
{
    assert((0x80u8 | x) != 0) by (bit_vector);
    assert((0xC0u8 | x) != 0) by (bit_vector);
    assert((0xE0u8 | x) != 0) by (bit_vector);
    assert((0xF0u8 | x) != 0) by (bit_vector);
}

proof fn lemma_low_bits_nonzero(v: u32)
    requires
        1 <= v <= 0x7F,
    ensures
        (v & 0x7F) as u8 != 0,
{
    assert(1 <= v <= 0x7F ==> (v & 0x7F) as u8 != 0) by (bit_vector);
}

/// The encoding of `'\0'` is the single byte `0`; no other `char` encodes to a `0` byte.
pub proof fn lemma_encode_scalar_nul(c: char)
    ensures
        c == '\0' ==> encode_scalar(c as u32) == seq![0u8],
        c != '\0' ==> has_no_zero(encode_scalar(c as u32)),
        encode_scalar(c as u32).len() >= 1,
{
    let v = c as u32;
    char_is_scalar(c);
    if c == '\0' {
        assert(v == 0);
        assert((0u32 & 0x7F) as u8 == 0) by (bit_vector);
        assert(encode_scalar(v) =~= seq![0u8]);
    } else {
        char_u32_cast(c, v);
        if has_width_1_encoding(v) {
            assert(v != 0);
            lemma_low_bits_nonzero(v);
        } else if has_width_2_encoding(v) {
            lemma_high_bits_nonzero(((v >> 6) & 0x1F) as u8);
            lemma_high_bits_nonzero((v & 0x3F) as u8);
        } else if has_width_3_encoding(v) {
            lemma_high_bits_nonzero(((v >> 12) & 0x0F) as u8);
            lemma_high_bits_nonzero(((v >> 6) & 0x3F) as u8);
            lemma_high_bits_nonzero((v & 0x3F) as u8);
        } else {
            lemma_high_bits_nonzero(((v >> 18) & 0x7) as u8);
            lemma_high_bits_nonzero(((v >> 12) & 0x3F) as u8);
            lemma_high_bits_nonzero(((v >> 6) & 0x3F) as u8);
            lemma_high_bits_nonzero((v & 0x3F) as u8);
        }
    }
}

/// Encoding distributes over concatenation.
pub proof fn lemma_encode_concat(a: Seq<char>, b: Seq<char>)
    ensures
        encode_utf8(a + b) == encode_utf8(a) + encode_utf8(b),
    decreases a.len(),
{
    if a.len() == 0 {
        assert(a + b =~= b);
        assert(encode_utf8(a) + encode_utf8(b) =~= encode_utf8(b));
    } else {
        assert((a + b).drop_first() =~= a.drop_first() + b);
        lemma_encode_concat(a.drop_first(), b);
        assert((a + b)[0] == a[0]);
        assert(encode_utf8(a + b) =~= encode_utf8(a) + encode_utf8(b));
    }
}

/// Encoding one more `char` appends its scalar encoding.
pub proof fn lemma_encode_push(t: Seq<char>, c: char)
    ensures
        encode_utf8(t.push(c)) == encode_utf8(t) + encode_scalar(c as u32),
{
    lemma_encode_concat(t, seq![c]);
    assert(t.push(c) =~= t + seq![c]);
    reveal_with_fuel(encode_utf8, 2);
    assert(seq![c].drop_first() =~= Seq::<char>::empty());
    assert(encode_utf8(seq![c]) =~= encode_scalar(c as u32));
}

/// Text is determined by its encoding.
pub proof fn lemma_encode_injective(a: Seq<char>, b: Seq<char>)
    requires
        encode_utf8(a) == encode_utf8(b),
    ensures
        a == b,
{
    encode_utf8_decode_utf8(a);
    encode_utf8_decode_utf8(b);
}

proof fn lemma_no_zero_concat(x: Seq<u8>, y: Seq<u8>)
    ensures
        has_no_zero(x + y) <==> has_no_zero(x) && has_no_zero(y),
{
    if has_no_zero(x + y) {
        assert forall|i: int| 0 <= i < x.len() implies #[trigger] x[i] != 0 by {
            assert((x + y)[i] == x[i]);
        }
        assert forall|i: int| 0 <= i < y.len() implies #[trigger] y[i] != 0 by {
            assert((x + y)[x.len() + i] == y[i]);
        }
    }
    if has_no_zero(x) && has_no_zero(y) {
        assert forall|i: int| 0 <= i < (x + y).len() implies #[trigger] (x + y)[i] != 0 by {
            if i < x.len() {
                assert((x + y)[i] == x[i]);
            } else {
                assert((x + y)[i] == y[i - x.len()]);
            }
        }
    }
}

/// Text holds no `'\0'` exactly when its encoding holds no `0` byte.
pub proof fn lemma_no_nul_iff_no_zero(t: Seq<char>)
    ensures
        has_no_nul(t) <==> has_no_zero(encode_utf8(t)),
    decreases t.len(),
{
    if t.len() > 0 {
        let p = t.drop_last();
        let c = t.last();
        assert(p.push(c) =~= t);
        lemma_encode_push(p, c);
        lemma_no_nul_iff_no_zero(p);
        lemma_encode_scalar_nul(c);
        lemma_no_zero_concat(encode_utf8(p), encode_scalar(c as u32));
        if c == '\0' {
            assert(encode_scalar(c as u32)[0] == 0);
            assert(!has_no_nul(t)) by {
                assert(t[t.len() - 1] == '\0');
            }
        }
        if has_no_nul(t) {
            assert forall|i: int| 0 <= i < p.len() implies #[trigger] p[i] != '\0' by {
                assert(p[i] == t[i]);
            }
            assert(t[t.len() - 1] != '\0');
        }
        if has_no_nul(p) && c != '\0' {
            assert forall|i: int| 0 <= i < t.len() implies #[trigger] t[i] != '\0' by {
                if i < p.len() {
                    assert(p[i] == t[i]);
                }
            }
        }
    }
}

/// The encoding of text ending in one `'\0'` is `wire` of the text before it.
pub proof fn lemma_encode_terminated(t: Seq<char>)
    ensures
        encode_utf8(t.push('\0')) == wire(t),
{
    lemma_encode_push(t, '\0');
    lemma_encode_scalar_nul('\0');
    assert(encode_utf8(t) + seq![0u8] =~= encode_utf8(t).push(0u8));
}

/// Text is terminated by a single `'\0'` exactly when its encoding is a delimited buffer.
pub proof fn lemma_terminated_iff_delimited(s: Seq<char>)
    ensures
        is_nul_terminated(s) <==> is_delimited(encode_utf8(s)),
{
    if s.len() == 0 {
        assert(encode_utf8(s).len() == 0);
    } else {
        let p = s.drop_last();
        let c = s.last();
        assert(p.push(c) =~= s);
        lemma_encode_push(p, c);
        lemma_encode_scalar_nul(c);
        lemma_no_nul_iff_no_zero(p);
        let e = encode_utf8(s);
        if c == '\0' {
            lemma_encode_terminated(p);
            assert(e.drop_last() =~= encode_utf8(p));
        } else {
            let sc = encode_scalar(c as u32);
            assert(e.last() == sc[sc.len() - 1]);
            assert(!is_delimited(e));
        }
    }
}

/// The delimited buffer `wire(t)` is valid UTF-8 and decodes to `t` followed by `'\0'`.
pub proof fn lemma_wire_decodes(t: Seq<char>)
    ensures
        valid_utf8(wire(t)),
        decode_utf8(wire(t)) == t.push('\0'),
        content(wire(t)) == encode_utf8(t),
{
    lemma_encode_terminated(t);
    encode_utf8_valid_utf8(t.push('\0'));
    encode_utf8_decode_utf8(t.push('\0'));
    assert(content(wire(t)) =~= encode_utf8(t));
}

/// Validity of a delimited buffer depends on its content alone.
pub proof fn lemma_delimited_valid(b: Seq<u8>)
    requires
        is_delimited(b),
    ensures
        valid_utf8(b) <==> valid_utf8(content(b)),
        valid_utf8(content(b)) ==> b == wire(decode_utf8(content(b))),
        valid_utf8(content(b)) ==> decode_utf8(b) == decode_utf8(content(b)).push('\0'),
{
    let c = content(b);
    assert(b =~= c.push(0u8));
    if valid_utf8(c) {
        let t = decode_utf8(c);
        decode_utf8_encode_utf8(c);
        lemma_wire_decodes(t);
    }
    if valid_utf8(b) {
        let n = b.len() - 1;
        is_char_boundary_iff_is_leading_byte(b, n);
        assert(is_leading_byte_width_1(b[n]));
        valid_utf8_split(b, n);
        assert(b.subrange(0, n) =~= c);
    }
}

/// Encoding commutes with removing terminators.
pub proof fn lemma_encode_strip(t: Seq<char>)
    ensures
        encode_utf8(strip_nul(t)) == strip_zero(encode_utf8(t)),
    decreases t.len(),
{
    if t.len() == 0 {
    } else {
        let p = t.drop_last();
        let c = t.last();
        assert(p.push(c) =~= t);
        lemma_encode_strip(p);
        lemma_encode_push(p, c);
        lemma_encode_scalar_nul(c);
        lemma_strip_zero_concat(encode_utf8(p), encode_scalar(c as u32));
        if c == '\0' {
            lemma_strip_zero_of_zero();
            assert(strip_zero(encode_utf8(p)) + Seq::<u8>::empty() =~= strip_zero(
                encode_utf8(p),
            ));
        } else {
            lemma_strip_zero_no_zero(encode_scalar(c as u32));
            lemma_encode_push(strip_nul(p), c);
        }
    }
}

proof fn lemma_strip_zero_of_zero()
    ensures
        strip_zero(seq![0u8]) == Seq::<u8>::empty(),
{
    reveal_with_fuel(strip_zero, 2);
    assert(seq![0u8].drop_last() =~= Seq::<u8>::empty());
}

/// Removing `0` bytes leaves bytes with none changed.
pub proof fn lemma_strip_zero_no_zero(b: Seq<u8>)
    requires
        has_no_zero(b),
    ensures
        strip_zero(b) == b,
    decreases b.len(),
{
    if b.len() > 0 {
        let p = b.drop_last();
        assert(has_no_zero(p)) by {
            assert forall|i: int| 0 <= i < p.len() implies #[trigger] p[i] != 0 by {
                assert(p[i] == b[i]);
            }
        }
        lemma_strip_zero_no_zero(p);
        assert(b[b.len() - 1] != 0);
        assert(p.push(b.last()) =~= b);
    }
}

/// Removing `0` bytes distributes over concatenation.
pub proof fn lemma_strip_zero_concat(x: Seq<u8>, y: Seq<u8>)
    ensures
        strip_zero(x + y) == strip_zero(x) + strip_zero(y),
    decreases y.len(),
{
    if y.len() == 0 {
        assert(x + y =~= x);
        assert(strip_zero(x) + strip_zero(y) =~= strip_zero(x));
    } else {
        assert((x + y).drop_last() =~= x + y.drop_last());
        assert((x + y).last() == y.last());
        lemma_strip_zero_concat(x, y.drop_last());
        if y.last() != 0 {
            assert(strip_zero(x) + strip_zero(y.drop_last()).push(y.last()) =~= (strip_zero(x)
                + strip_zero(y.drop_last())).push(y.last()));
        }
    }
}

/// Removing `'\0'` leaves text with none.
pub proof fn lemma_strip_nul_has_no_nul(t: Seq<char>)
    ensures
        has_no_nul(strip_nul(t)),
    decreases t.len(),
{
    if t.len() > 0 {
        lemma_strip_nul_has_no_nul(t.drop_last());
        let r = strip_nul(t.drop_last());
        if t.last() != '\0' {
            assert forall|i: int| 0 <= i < r.push(t.last()).len() implies #[trigger] r.push(
                t.last(),
            )[i] != '\0' by {
                if i < r.len() {
                    assert(r.push(t.last())[i] == r[i]);
                }
            }
        }
    }
}

/// Removing `'\0'` from text that has none changes nothing.
pub proof fn lemma_strip_nul_no_nul(t: Seq<char>)
    requires
        has_no_nul(t),
    ensures
        strip_nul(t) == t,
    decreases t.len(),
{
    if t.len() > 0 {
        let p = t.drop_last();
        assert(has_no_nul(p)) by {
            assert forall|i: int| 0 <= i < p.len() implies #[trigger] p[i] != '\0' by {
                assert(p[i] == t[i]);
            }
        }
        lemma_strip_nul_no_nul(p);
        assert(t[t.len() - 1] != '\0');
        assert(p.push(t.last()) =~= t);
    }
}

/// Removing `'\0'` keeps every other `char`.
pub proof fn lemma_strip_nul_keeps(t: Seq<char>, c: char)
    requires
        c != '\0',
        t.contains(c),
    ensures
        strip_nul(t).contains(c),
    decreases t.len(),
{
    let p = t.drop_last();
    if t.last() == c {
        assert(strip_nul(t).last() == c);
    } else {
        let i = choose|i: int| 0 <= i < t.len() && t[i] == c;
        assert(p[i] == c);
        lemma_strip_nul_keeps(p, c);
        let j = choose|j: int| 0 <= j < strip_nul(p).len() && strip_nul(p)[j] == c;
        if t.last() != '\0' {
            assert(strip_nul(t)[j] == c);
        }
    }
}

/// Building a buffer from text is idempotent: the text of
/// `from_text(t)` holds no `'\0'`, so building again from that text yields
/// the same text, and removing `'\0'` twice is removing it once.
pub proof fn lemma_strip_nul_idempotent(t: Seq<char>)
    ensures
        strip_nul(strip_nul(t)) == strip_nul(t),
{
    lemma_strip_nul_has_no_nul(t);
    lemma_strip_nul_no_nul(strip_nul(t));
}

/// The lexicographic order of byte strings, which is the order of `str`.
pub open spec fn bytes_cmp(a: Seq<u8>, b: Seq<u8>) -> Ordering
    decreases a.len(),
{
    if a.len() == 0 {
        if b.len() == 0 {
            Ordering::Equal
        } else {
            Ordering::Less
        }
    } else if b.len() == 0 {
        Ordering::Greater
    } else if a[0] < b[0] {
        Ordering::Less
    } else if a[0] > b[0] {
        Ordering::Greater
    } else {
        bytes_cmp(a.drop_first(), b.drop_first())
    }
}

/// The order of texts: that of their UTF-8 encodings.
pub open spec fn text_cmp(a: Seq<char>, b: Seq<char>) -> Ordering {
    bytes_cmp(encode_utf8(a), encode_utf8(b))
}

} // verus!
