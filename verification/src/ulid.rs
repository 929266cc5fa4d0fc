//! ULID: 128 bits, a 48-bit millisecond timestamp above 80 random bits,
//! written as 26 Crockford base32 symbols.
use vstd::prelude::*;
use vstd::string::StringSliceAdditionalSpecFns;
use vstd::utf8::encode_utf8;
use crate::error::{ParseIdError, ParseIdErrorKind};
use crate::bytes128::{u128_from_halves, u128_be_bytes, lemma_u128_halves, lemma_be_bytes_of_halves, lemma_u64_be_compose};
use crate::text::{lex_less, lex_less_at, byte_chars, all_ascii, lemma_ascii_bytes_encode, string_push};

verus! {

/// The Crockford base32 symbol of a 5-bit digit, from the alphabet
/// `0123456789ABCDEFGHJKMNPQRSTVWXYZ` (no I, L, O, U).
pub open spec fn crockford_symbol(d: u8) -> u8
    recommends
        d < 32,
{
    if d < 10 {
        (48 + d) as u8  // '0'..'9'
    } else if d < 18 {
        (65 + d - 10) as u8  // 'A'..'H'
    } else if d < 20 {
        (74 + d - 18) as u8  // 'J', 'K'
    } else if d < 22 {
        (77 + d - 20) as u8  // 'M', 'N'
    } else if d < 27 {
        (80 + d - 22) as u8  // 'P'..'T'
    } else {
        (86 + d - 27) as u8  // 'V'..'Z'
    }
}

/// The byte in upper case, when it is an ASCII lower-case letter.
pub open spec fn ascii_upper(c: u8) -> u8 {
    if 97 <= c <= 122 { (c - 32) as u8 } else { c }
}

/// The digit that a byte stands for in Crockford base32: either case, with
/// `O` read as 0 and `I` and `L` read as 1; `None` for any other byte.
pub open spec fn crockford_digit(c: u8) -> Option<u8> {
    let u = ascii_upper(c);
    if 48 <= u <= 57 {
        Some((u - 48) as u8)
    } else if u == 79 {
        Some(0u8)  // 'O'
    } else if u == 73 || u == 76 {
        Some(1u8)  // 'I', 'L'
    } else if 65 <= u <= 72 {
        Some((u - 65 + 10) as u8)  // 'A'..'H'
    } else if 74 <= u <= 75 {
        Some((u - 74 + 18) as u8)  // 'J', 'K'
    } else if 77 <= u <= 78 {
        Some((u - 77 + 20) as u8)  // 'M', 'N'
    } else if 80 <= u <= 84 {
        Some((u - 80 + 22) as u8)  // 'P'..'T'
    } else if 86 <= u <= 90 {
        Some((u - 86 + 27) as u8)  // 'V'..'Z'
    } else {
        None
    }
}

/// The 5-bit digit at position `i` (0 is the leftmost) of the 26-symbol
/// text of `v`; the leftmost digit holds only the top 3 bits.
pub open spec fn crockford_text_digit(v: u128, i: int) -> u8 {
    ((v >> ((125 - 5 * i) as u128)) & 31u128) as u8
}

/// The 26 ASCII bytes of the ULID text of `v`, most significant first.
pub open spec fn ulid_text(v: u128) -> Seq<u8> {
    Seq::new(26, |i: int| crockford_symbol(crockford_text_digit(v, i)))
}

/// Reads Crockford base32 symbols from left to right into `acc`, five bits
/// each; bits shifted past bit 127 are dropped. `None` at the first byte
/// that is no symbol.
pub open spec fn crockford_accumulate(s: Seq<u8>, acc: u128) -> Option<u128>
    decreases s.len(),
{
    if s.len() == 0 {
        Some(acc)
    } else {
        match crockford_digit(s[0]) {
            Some(d) => crockford_accumulate(s.drop_first(), (acc << 5u128) | (d as u128)),
            None => None,
        }
    }
}

/// What the text with the given bytes parses to as a ULID.
pub open spec fn ulid_decode(s: Seq<u8>) -> Result<u128, ParseIdErrorKind> {
    if s.len() != 26 {
        Err(ParseIdErrorKind::UlidLength)
    } else {
        match crockford_accumulate(s, 0) {
            Some(v) => Ok(v),
            None => Err(ParseIdErrorKind::InvalidCrockfordChar),
        }
    }
}

/// A Universally Unique Lexicographically Sortable Identifier (ULID).
///
/// 128 bits: 48-bit timestamp (milliseconds since Unix epoch) + 80-bit random.
/// Encoded as 26-character Crockford base32 string.
#[derive(Clone, Copy, Debug, PartialEq, Eq, Structural, Hash, PartialOrd, Ord)]
pub struct Ulid {
    /// Most significant 64 bits: 48-bit timestamp in upper bits + 16 bits of randomness.
    msb: u64,
    /// Least significant 64 bits: remaining 64 bits of randomness.
    lsb: u64,
}

impl View for Ulid {
    type V = u128;

    closed spec fn view(&self) -> u128 {
        u128_from_halves(self.msb, self.lsb)
    }
}

/// The ULID text is written in the upper-case Crockford alphabet: digit
/// `d` is the `d`-th character of `0123456789ABCDEFGHJKMNPQRSTVWXYZ`.
pub proof fn lemma_crockford_alphabet(d: u8)
    requires
        d < 32,
    ensures
        crockford_symbol(d) as char == "0123456789ABCDEFGHJKMNPQRSTVWXYZ"@[d as int],
{
    reveal_strlit("0123456789ABCDEFGHJKMNPQRSTVWXYZ");
    let a = "0123456789ABCDEFGHJKMNPQRSTVWXYZ"@;
    assert(a[0] == '0' && a[1] == '1' && a[2] == '2' && a[3] == '3' && a[4] == '4' && a[5] == '5'
        && a[6] == '6' && a[7] == '7' && a[8] == '8' && a[9] == '9' && a[10] == 'A' && a[11] == 'B'
        && a[12] == 'C' && a[13] == 'D' && a[14] == 'E' && a[15] == 'F' && a[16] == 'G'
        && a[17] == 'H' && a[18] == 'J' && a[19] == 'K' && a[20] == 'M' && a[21] == 'N'
        && a[22] == 'P' && a[23] == 'Q' && a[24] == 'R' && a[25] == 'S' && a[26] == 'T'
        && a[27] == 'V' && a[28] == 'W' && a[29] == 'X' && a[30] == 'Y' && a[31] == 'Z');
}

/// Each 5-bit digit decodes from its symbol.
pub proof fn lemma_crockford_symbol_digit(d: u8)
    requires
        d < 32,
    ensures
        crockford_digit(crockford_symbol(d)) == Some(d),
        crockford_symbol(d) < 128,
{
}

/// 32 to the power `e`.
pub open spec fn pow32(e: nat) -> nat
    decreases e,
{
    if e == 0 { 1 } else { 32 * pow32((e - 1) as nat) }
}

/// Whether every byte is a Crockford base32 symbol (either case, or an
/// alias).
pub open spec fn all_crockford(s: Seq<u8>) -> bool {
    forall|i: int| 0 <= i < s.len() ==> #[trigger] crockford_digit(s[i]) is Some
}

/// The number that Crockford base32 symbols stand for, most significant
/// first: the sum of each digit times 32 to the power of the number of
/// symbols after it.
pub open spec fn crockford_value(s: Seq<u8>) -> nat
    decreases s.len(),
{
    if s.len() == 0 {
        0
    } else {
        crockford_digit(s[0]).unwrap() as nat * pow32((s.len() - 1) as nat)
            + crockford_value(s.drop_first())
    }
}

proof fn lemma_accumulate_value(s: Seq<u8>, acc: u128)
    ensures
        crockford_accumulate(s, acc) == if all_crockford(s) {
            Some(((acc as int * pow32(s.len()) + crockford_value(s)) % 0x1_0000_0000_0000_0000_0000_0000_0000_0000int) as u128)
        } else {
            None::<u128>
        },
    decreases s.len(),
{
    let m: int = 0x1_0000_0000_0000_0000_0000_0000_0000_0000int;
    if s.len() == 0 {
        assert(all_crockford(s));
        assert(acc as int % m == acc as int);
    } else {
        let rest = s.drop_first();
        assert(all_crockford(s) <==> crockford_digit(s[0]) is Some && all_crockford(rest)) by {
            if crockford_digit(s[0]) is Some && all_crockford(rest) {
                assert forall|i: int| 0 <= i < s.len() implies #[trigger] crockford_digit(s[i]) is Some by {
                    if i > 0 {
                        assert(s[i] == rest[i - 1]);
                    }
                }
            }
            if all_crockford(s) {
                assert(crockford_digit(s[0]) is Some);
                assert forall|i: int| 0 <= i < rest.len() implies #[trigger] crockford_digit(rest[i]) is Some by {
                    assert(rest[i] == s[i + 1]);
                }
            }
        }
        match crockford_digit(s[0]) {
            None => {},
            Some(d) => {
                assert(d < 32);
                let acc2: u128 = (acc << 5u128) | (d as u128);
                assert(acc2 as int == (acc as int * 32 + d as int) % 0x1_0000_0000_0000_0000_0000_0000_0000_0000int)
                    by (bit_vector)
                    requires
                        acc2 == (acc << 5u128) | (d as u128),
                        d < 32,
                ;
                lemma_accumulate_value(rest, acc2);
                if all_crockford(rest) {
                    let x: int = acc as int * 32 + d as int;
                    let p: int = pow32(rest.len()) as int;
                    let v: int = crockford_value(rest) as int;
                    vstd::arithmetic::div_mod::lemma_mul_mod_noop_left(x, p, m);
                    vstd::arithmetic::div_mod::lemma_add_mod_noop((x % m) * p, v, m);
                    vstd::arithmetic::div_mod::lemma_add_mod_noop(x * p, v, m);
                    assert(x * p == acc as int * (32 * p) + d as int * p) by (nonlinear_arith)
                        requires
                            x == acc as int * 32 + d as int,
                    ;
                    assert(pow32(s.len()) == 32 * pow32(rest.len()));
                    assert(crockford_value(s) == d as nat * pow32(rest.len()) + crockford_value(rest));
                    assert(((x % m) * p + v) % m == (x * p + v) % m);
                }
            },
        }
    }
}

/// What a ULID text stands for, directly: 26 bytes that are all Crockford
/// symbols parse to their positional base-32 value, taken modulo 2^128
/// (the top two bits of the first symbol fall away); any other byte gives
/// an error, and so does any other length.
pub proof fn lemma_ulid_decode_value(s: Seq<u8>)
    ensures
        ulid_decode(s) == if s.len() != 26 {
            Err(ParseIdErrorKind::UlidLength)
        } else if all_crockford(s) {
            Ok(
                (crockford_value(s) as int % 0x1_0000_0000_0000_0000_0000_0000_0000_0000int) as u128,
            )
        } else {
            Err::<u128, ParseIdErrorKind>(ParseIdErrorKind::InvalidCrockfordChar)
        },
{
    lemma_accumulate_value(s, 0);
}

/// The ULID text of a value parses back to that value.
pub proof fn lemma_ulid_text_decode(v: u128)
    ensures
        ulid_decode(ulid_text(v)) == Ok::<u128, ParseIdErrorKind>(v),
{
    lemma_accumulate_text_suffix(v, 0);
    assert(ulid_text(v).skip(0) =~= ulid_text(v));
    assert((v >> 130u128) == 0) by (bit_vector);
}

proof fn lemma_accumulate_text_suffix(v: u128, k: int)
    requires
        0 <= k <= 26,
    ensures
        crockford_accumulate(ulid_text(v).skip(k), v >> ((130 - 5 * k) as u128)) == Some(v),
    decreases 26 - k,
{
    let t = ulid_text(v);
    if k == 26 {
        assert(t.skip(26).len() == 0);
        assert(v >> 0u128 == v) by (bit_vector);
    } else {
        lemma_accumulate_text_suffix(v, k + 1);
        let s: u128 = (125 - 5 * k) as u128;
        let d = crockford_text_digit(v, k);
        assert(d < 32) by {
            assert((v >> s) & 31u128 < 32) by (bit_vector);
        }
        lemma_crockford_symbol_digit(d);
        assert(t.skip(k)[0] == crockford_symbol(d));
        assert(t.skip(k).drop_first() =~= t.skip(k + 1));
        assert(((v >> ((s + 5) as u128)) << 5u128) | ((((v >> s) & 31u128) as u8) as u128)
            == v >> s) by (bit_vector)
            requires
                s <= 125,
        ;
        assert((130 - 5 * k) as u128 == (s + 5) as u128);
        assert((130 - 5 * (k + 1)) as u128 == s);
    }
}

/// The text that [`Ulid::to_string`] gives parses back, through
/// [`Ulid::parse`], to the same value.
pub proof fn lemma_ulid_string_roundtrip(v: u128)
    ensures
        ulid_decode(encode_utf8(byte_chars(ulid_text(v)))) == Ok::<u128, ParseIdErrorKind>(v),
        byte_chars(ulid_text(v)).len() == 26,
{
    let t = ulid_text(v);
    assert(all_ascii(t)) by {
        assert forall|i: int| 0 <= i < t.len() implies #[trigger] t[i] < 128 by {
            let d = crockford_text_digit(v, i);
            let sh = (125 - 5 * i) as u128;
            assert((v >> sh) & 31u128 < 32) by (bit_vector);
            lemma_crockford_symbol_digit(d);
        }
    }
    lemma_ascii_bytes_encode(t);
    lemma_ulid_text_decode(v);
}

/// The value of the first `k` symbols of the text of `v`.
spec fn text_prefix_value(v: u128, k: int) -> u128 {
    v >> ((130 - 5 * k) as u128)
}

proof fn lemma_text_prefix_step(v: u128, k: int)
    requires
        0 <= k < 26,
    ensures
        text_prefix_value(v, k + 1) as int == 32 * text_prefix_value(v, k) as int
            + crockford_text_digit(v, k) as int,
        crockford_text_digit(v, k) < 32,
{
    let s: u128 = (125 - 5 * k) as u128;
    assert((v >> s) as int == (v >> ((s + 5) as u128)) as int * 32 + ((v >> s) & 31u128) as int
        && (v >> s) & 31u128 < 32) by (bit_vector)
        requires
            s <= 125,
    ;
    assert((130 - 5 * (k + 1)) as u128 == s);
    assert((130 - 5 * k) as u128 == (s + 5) as u128);
}

proof fn lemma_shift_monotone(v1: u128, v2: u128, s: u128)
    requires
        v1 <= v2,
    ensures
        v1 >> s <= v2 >> s,
{
    assert(v1 <= v2 ==> v1 >> s <= v2 >> s) by (bit_vector);
}

/// From position `k` on, where the texts of `v1` and `v2` agree so far,
/// the first position at which their digits differ, when the values differ.
proof fn lemma_first_digit_difference(v1: u128, v2: u128, k: int) -> (i: int)
    requires
        0 <= k <= 26,
        v1 != v2,
        text_prefix_value(v1, k) == text_prefix_value(v2, k),
        forall|j: int| 0 <= j < k ==> crockford_text_digit(v1, j) == crockford_text_digit(v2, j),
    ensures
        k <= i < 26,
        text_prefix_value(v1, i) == text_prefix_value(v2, i),
        crockford_text_digit(v1, i) != crockford_text_digit(v2, i),
        forall|j: int| 0 <= j < i ==> crockford_text_digit(v1, j) == crockford_text_digit(v2, j),
    decreases 26 - k,
{
    if k == 26 {
        assert(v1 >> 0u128 == v1 && v2 >> 0u128 == v2) by (bit_vector);
        assert((130 - 5 * 26) as u128 == 0u128);
        assert(false);
        0
    } else {
        lemma_text_prefix_step(v1, k);
        lemma_text_prefix_step(v2, k);
        if crockford_text_digit(v1, k) == crockford_text_digit(v2, k) {
            lemma_first_digit_difference(v1, v2, k + 1)
        } else {
            k
        }
    }
}

proof fn lemma_text_before(v1: u128, v2: u128) -> (i: int)
    requires
        v1 < v2,
    ensures
        lex_less_at(ulid_text(v1), ulid_text(v2), i),
{
    assert(text_prefix_value(v1, 0) == 0 && text_prefix_value(v2, 0) == 0) by {
        assert((130 - 5 * 0) as u128 == 130u128);
        assert(v1 >> 130u128 == 0 && v2 >> 130u128 == 0) by (bit_vector);
    }
    let i = lemma_first_digit_difference(v1, v2, 0);
    lemma_text_prefix_step(v1, i);
    lemma_text_prefix_step(v2, i);
    lemma_shift_monotone(v1, v2, (130 - 5 * (i + 1)) as u128);
    let d1 = crockford_text_digit(v1, i);
    let d2 = crockford_text_digit(v2, i);
    assert(d1 < d2);
    assert(crockford_symbol(d1) < crockford_symbol(d2));
    let t1 = ulid_text(v1);
    let t2 = ulid_text(v2);
    assert(t1.take(i) =~= t2.take(i));
    i
}

/// ULIDs sort as their texts do: one value is below another exactly when
/// its 26-symbol text comes first in byte-wise lexicographic order.
pub proof fn lemma_ulid_text_order(v1: u128, v2: u128)
    ensures
        v1 < v2 <==> lex_less(ulid_text(v1), ulid_text(v2)),
{
    let t1 = ulid_text(v1);
    let t2 = ulid_text(v2);
    if v1 < v2 {
        let i = lemma_text_before(v1, v2);
        assert(lex_less_at(t1, t2, i));
    } else if lex_less(t1, t2) {
        let i = choose|i: int| #[trigger] lex_less_at(t1, t2, i);
        if v1 == v2 {
            assert(false);
        } else {
            let j = lemma_text_before(v2, v1);
            if i < j {
                assert(t2.take(j)[i] == t1.take(j)[i]);
            } else if j < i {
                assert(t1.take(i)[j] == t2.take(i)[j]);
            }
            assert(false);
        }
    }
}

proof fn lemma_accumulate_digitwise(s: Seq<u8>, t: Seq<u8>, acc: u128)
    requires
        s.len() == t.len(),
        forall|i: int| 0 <= i < s.len() ==> crockford_digit(#[trigger] s[i]) == crockford_digit(
            t[i],
        ),
    ensures
        crockford_accumulate(s, acc) == crockford_accumulate(t, acc),
    decreases s.len(),
{
    if s.len() > 0 {
        assert(crockford_digit(s[0]) == crockford_digit(t[0]));
        if let Some(d) = crockford_digit(s[0]) {
            assert forall|i: int| 0 <= i < s.drop_first().len() implies crockford_digit(
                #[trigger] s.drop_first()[i],
            ) == crockford_digit(t.drop_first()[i]) by {
                assert(s.drop_first()[i] == s[i + 1]);
                assert(t.drop_first()[i] == t[i + 1]);
            }
            lemma_accumulate_digitwise(
                s.drop_first(),
                t.drop_first(),
                (acc << 5u128) | (d as u128),
            );
        }
    }
}

/// ULID parsing reads symbol by symbol: two texts whose bytes stand for the
/// same digits, position by position, parse to the same result.
pub proof fn lemma_ulid_decode_digitwise(s: Seq<u8>, t: Seq<u8>)
    requires
        s.len() == t.len(),
        forall|i: int| 0 <= i < s.len() ==> crockford_digit(#[trigger] s[i]) == crockford_digit(
            t[i],
        ),
    ensures
        ulid_decode(s) == ulid_decode(t),
{
    lemma_accumulate_digitwise(s, t, 0);
}

/// Crockford symbols read the same in either case, and `O`, `I` and `L`
/// (either case) read as `0`, `1` and `1`; so by
/// [`lemma_ulid_decode_digitwise`] a ULID text parses the same after any of
/// these changes.
pub proof fn lemma_crockford_aliases(c: u8)
    ensures
        crockford_digit(c) == crockford_digit(ascii_upper(c)),
        crockford_digit(79) == crockford_digit(48),
        crockford_digit(111) == crockford_digit(48),
        crockford_digit(73) == crockford_digit(49),
        crockford_digit(105) == crockford_digit(49),
        crockford_digit(76) == crockford_digit(49),
        crockford_digit(108) == crockford_digit(49),
{
}

/// The exec counterpart of [`crockford_symbol`].
fn crockford_encode_digit(d: u8) -> (c: u8)
    requires
        d < 32,
    ensures
        c == crockford_symbol(d),
{
    if d < 10 {
        48 + d
    } else if d < 18 {
        65 + d - 10
    } else if d < 20 {
        74 + d - 18
    } else if d < 22 {
        77 + d - 20
    } else if d < 27 {
        80 + d - 22
    } else {
        86 + d - 27
    }
}

/// Decodes one Crockford base32 symbol.
pub fn crockford_decode_char(c: u8) -> (r: Option<u8>)
    ensures
        r == crockford_digit(c),
{
    match c {
        48 | 79 | 111 => Some(0),  // '0' 'O' 'o'
        49 | 73 | 105 | 76 | 108 => Some(1),  // '1' 'I' 'i' 'L' 'l'
        50 => Some(2),
        51 => Some(3),
        52 => Some(4),
        53 => Some(5),
        54 => Some(6),
        55 => Some(7),
        56 => Some(8),
        57 => Some(9),
        65 | 97 => Some(10),  // 'A' 'a'
        66 | 98 => Some(11),  // 'B' 'b'
        67 | 99 => Some(12),  // 'C' 'c'
        68 | 100 => Some(13),  // 'D' 'd'
        69 | 101 => Some(14),  // 'E' 'e'
        70 | 102 => Some(15),  // 'F' 'f'
        71 | 103 => Some(16),  // 'G' 'g'
        72 | 104 => Some(17),  // 'H' 'h'
        74 | 106 => Some(18),  // 'J' 'j'
        75 | 107 => Some(19),  // 'K' 'k'
        77 | 109 => Some(20),  // 'M' 'm'
        78 | 110 => Some(21),  // 'N' 'n'
        80 | 112 => Some(22),  // 'P' 'p'
        81 | 113 => Some(23),  // 'Q' 'q'
        82 | 114 => Some(24),  // 'R' 'r'
        83 | 115 => Some(25),  // 'S' 's'
        84 | 116 => Some(26),  // 'T' 't'
        86 | 118 => Some(27),  // 'V' 'v'
        87 | 119 => Some(28),  // 'W' 'w'
        88 | 120 => Some(29),  // 'X' 'x'
        89 | 121 => Some(30),  // 'Y' 'y'
        90 | 122 => Some(31),  // 'Z' 'z'
        _ => None,
    }
}

impl Ulid {
    /// The ULID with the given halves.
    pub(crate) fn from_halves(msb: u64, lsb: u64) -> (u: Ulid)
        ensures
            u@ == u128_from_halves(msb, lsb),
    {
        Ulid { msb, lsb }
    }

    /// Returns the timestamp component in milliseconds since Unix epoch.
    pub fn timestamp_ms(&self) -> (ms: u64)
        ensures
            ms == (self@ >> 80u128) as u64,
    {
        let m = self.msb;
        let l = self.lsb;
        assert(((((m as u128) << 64u128) | (l as u128)) >> 80u128) as u64 == m >> 16u64)
            by (bit_vector);
        self.msb >> 16
    }

    /// The 26-character Crockford base32 text of the ULID.
    pub fn to_string(&self) -> (s: String)
        ensures
            s@ == byte_chars(ulid_text(self@)),
    {
        let value: u128 = ((self.msb as u128) << 64) | (self.lsb as u128);
        let mut s = String::new();
        let mut i: usize = 0;
        while i < 26
            invariant
                i <= 26,
                value == self@,
                s@ == byte_chars(ulid_text(value)).take(i as int),
            decreases 26 - i,
        {
            let shift: u128 = (125 - 5 * i) as u128;
            let d = ((value >> shift) & 31) as u8;
            assert(((value >> shift) & 31u128) < 32) by (bit_vector);
            let c = crockford_encode_digit(d);
            string_push(&mut s, c as char);
            assert(s@ =~= byte_chars(ulid_text(value)).take(i + 1));
            i = i + 1;
        }
        assert(s@ =~= byte_chars(ulid_text(value)));
        s
    }

    /// Parses a ULID from its 26-symbol Crockford base32 text (either case;
    /// `O` reads as 0, `I` and `L` as 1).
    pub fn parse(s: &str) -> (r: Result<Ulid, ParseIdError>)
        ensures
            match ulid_decode(s.spec_bytes()) {
                Ok(v) => r matches Ok(u) && u@ == v,
                Err(kind) => r == Err::<Ulid, ParseIdError>(ParseIdError { kind }),
            },
    {
        let bytes = s.as_bytes();
        if bytes.len() != 26 {
            return Err(ParseIdError { kind: ParseIdErrorKind::UlidLength });
        }
        let mut value: u128 = 0;
        let mut i: usize = 0;
        assert(bytes@.skip(0) =~= bytes@);
        while i < 26
            invariant
                i <= 26,
                bytes@.len() == 26,
                bytes@ == s.spec_bytes(),
                crockford_accumulate(bytes@.skip(i as int), value)
                    == crockford_accumulate(bytes@, 0),
            decreases 26 - i,
        {
            assert(bytes@.skip(i as int)[0] == bytes@[i as int]);
            assert(bytes@.skip(i as int).drop_first() =~= bytes@.skip(i + 1));
            match crockford_decode_char(bytes[i]) {
                Some(d) => {
                    value = (value << 5) | (d as u128);
                },
                None => {
                    return Err(ParseIdError { kind: ParseIdErrorKind::InvalidCrockfordChar });
                },
            }
            i = i + 1;
        }
        assert(bytes@.skip(26).len() == 0);
        let msb = (value >> 64) as u64;
        let lsb = value as u64;
        proof {
            lemma_u128_halves(value);
        }
        Ok(Ulid { msb, lsb })
    }

    /// The ULID whose 16 bytes, most significant first, are `b`.
    pub fn from_bytes(b: [u8; 16]) -> (u: Ulid)
        ensures
            u128_be_bytes(u@) == b@,
    {
        let msb: u64 = ((b[0] as u64) << 56) | ((b[1] as u64) << 48) | ((b[2] as u64) << 40)
            | ((b[3] as u64) << 32) | ((b[4] as u64) << 24) | ((b[5] as u64) << 16)
            | ((b[6] as u64) << 8) | (b[7] as u64);
        let lsb: u64 = ((b[8] as u64) << 56) | ((b[9] as u64) << 48) | ((b[10] as u64) << 40)
            | ((b[11] as u64) << 32) | ((b[12] as u64) << 24) | ((b[13] as u64) << 16)
            | ((b[14] as u64) << 8) | (b[15] as u64);
        proof {
            lemma_u64_be_compose(b[0], b[1], b[2], b[3], b[4], b[5], b[6], b[7], msb);
            lemma_u64_be_compose(b[8], b[9], b[10], b[11], b[12], b[13], b[14], b[15], lsb);
            lemma_be_bytes_of_halves(msb, lsb);
        }
        let u = Ulid { msb, lsb };
        assert(u128_be_bytes(u@) =~= b@);
        u
    }

    /// The 16 bytes of the ULID, most significant first.
    pub fn to_bytes(&self) -> (b: [u8; 16])
        ensures
            b@ == u128_be_bytes(self@),
    {
        let m = self.msb;
        let l = self.lsb;
        let b: [u8; 16] = [
            (m >> 56) as u8, (m >> 48) as u8, (m >> 40) as u8, (m >> 32) as u8,
            (m >> 24) as u8, (m >> 16) as u8, (m >> 8) as u8, m as u8,
            (l >> 56) as u8, (l >> 48) as u8, (l >> 40) as u8, (l >> 32) as u8,
            (l >> 24) as u8, (l >> 16) as u8, (l >> 8) as u8, l as u8,
        ];
        proof {
            lemma_be_bytes_of_halves(m, l);
        }
        assert(b@ =~= u128_be_bytes(self@));
        b
    }
}

impl std::str::FromStr for Ulid {
    type Err = ParseIdError;

    fn from_str(s: &str) -> (r: Result<Ulid, ParseIdError>)
        ensures
            match ulid_decode(s.spec_bytes()) {
                Ok(v) => r matches Ok(u) && u@ == v,
                Err(kind) => r == Err::<Ulid, ParseIdError>(ParseIdError { kind }),
            },
    {
        Ulid::parse(s)
    }
}

} // verus!
