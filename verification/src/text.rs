//! Building ASCII strings.
use vstd::prelude::*;
use vstd::utf8::{encode_utf8, is_ascii_chars, is_ascii_chars_encode_utf8};

verus! {

/// The characters whose code points are the given bytes.
pub open spec fn byte_chars(b: Seq<u8>) -> Seq<char> {
    b.map_values(|x: u8| x as char)
}

/// Every byte is below 128.
pub open spec fn all_ascii(b: Seq<u8>) -> bool {
    forall|i: int| 0 <= i < b.len() ==> #[trigger] b[i] < 128
}

/// The UTF-8 encoding of the characters of ASCII bytes is those bytes.
pub proof fn lemma_ascii_bytes_encode(b: Seq<u8>)
    requires
        all_ascii(b),
    ensures
        encode_utf8(byte_chars(b)) == b,
{
    let c = byte_chars(b);
    assert(is_ascii_chars(c)) by {
        assert forall|i: int| 0 <= i < c.len() implies '\0' <= #[trigger] c[i] <= '\u{7f}' by {
            assert(b[i] < 128);
        }
    }
    is_ascii_chars_encode_utf8(c);
    assert(encode_utf8(c) =~= b);
}

/// Whether `a` and `b` first differ at position `i`, where `a` has the
/// smaller byte.
pub open spec fn lex_less_at(a: Seq<u8>, b: Seq<u8>, i: int) -> bool {
    &&& 0 <= i < a.len()
    &&& i < b.len()
    &&& a.take(i) == b.take(i)
    &&& a[i] < b[i]
}

/// Whether `a` comes strictly before `b` in byte-wise lexicographic order,
/// for texts where neither is a proper prefix of the other.
pub open spec fn lex_less(a: Seq<u8>, b: Seq<u8>) -> bool {
    exists|i: int| #[trigger] lex_less_at(a, b, i)
}

/// A common prefix keeps the order of two texts.
pub proof fn lemma_lex_less_prepend(p: Seq<u8>, a: Seq<u8>, b: Seq<u8>, i: int)
    requires
        lex_less_at(a, b, i),
    ensures
        lex_less_at(p + a, p + b, p.len() + i),
{
    assert((p + a).take(p.len() + i) =~= p + a.take(i));
    assert((p + b).take(p.len() + i) =~= p + b.take(i));
}

/// Of two texts of equal length, at most one comes before the other, and
/// none comes before itself.
pub proof fn lemma_lex_less_asymmetric(a: Seq<u8>, b: Seq<u8>)
    requires
        a.len() == b.len(),
    ensures
        !(lex_less(a, b) && lex_less(b, a)),
        !lex_less(a, a),
{
    if lex_less(a, b) && lex_less(b, a) {
        let i = choose|i: int| #[trigger] lex_less_at(a, b, i);
        let j = choose|j: int| #[trigger] lex_less_at(b, a, j);
        if i < j {
            assert(b.take(j)[i] == a.take(j)[i]);
        } else if j < i {
            assert(a.take(i)[j] == b.take(i)[j]);
        }
        assert(false);
    }
    if lex_less(a, a) {
        let i = choose|i: int| #[trigger] lex_less_at(a, a, i);
        assert(false);
    }
}

/// Calls `String::push`, which appends the character `c` to `s`.
#[verifier::external_body]
pub(crate) fn string_push(s: &mut String, c: char)
    ensures
        final(s)@ == old(s)@.push(c),
{
    s.push(c);
}

} // verus!
