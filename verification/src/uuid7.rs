//! UUIDv7 (RFC 9562): 48-bit Unix millisecond timestamp, 4-bit version 7,
//! 12 random bits, 2-bit variant 0b10, 62 random bits; written as 36
//! characters `xxxxxxxx-xxxx-xxxx-xxxx-xxxxxxxxxxxx` in lower-case hex.
use vstd::prelude::*;
use vstd::string::StringSliceAdditionalSpecFns;
use crate::bytes128::{
    u128_from_halves, u128_be_bytes, lemma_be_bytes_of_halves, lemma_u64_be_compose,
};
use crate::clock::now_millis;
use crate::error::{ParseIdError, ParseIdErrorKind};
use crate::generator::{IdGenerator, after_draw};
use crate::rng::xorshift_step;
use crate::text::{lex_less, lex_less_at, lemma_lex_less_prepend, lemma_lex_less_asymmetric, byte_chars, all_ascii, lemma_ascii_bytes_encode, string_push};
use vstd::utf8::encode_utf8;

verus! {

/// The upper 64 bits of a UUIDv7: timestamp, version 7, 12 random bits.
pub open spec fn uuid7_msb(ms: u64, r1: u64) -> u64 {
    (ms << 16u64) | (7u64 << 12u64) | (r1 & 0x0FFFu64)
}

/// The lower 64 bits of a UUIDv7: variant 0b10 above 62 random bits.
pub open spec fn uuid7_lsb(r2: u64) -> u64 {
    (2u64 << 62u64) | (r2 & 0x3FFF_FFFF_FFFF_FFFFu64)
}

/// The UUIDv7 made at millisecond `ms` by a generator whose random state
/// is `rng`: its next two draws give the random bits.
pub open spec fn uuid7_generated(ms: u64, rng: u64) -> u128 {
    let r1 = xorshift_step(rng);
    let r2 = xorshift_step(r1);
    u128_from_halves(uuid7_msb(ms, r1), uuid7_lsb(r2))
}

/// The lower-case hex symbol of a 4-bit value.
pub open spec fn hex_symbol(n: u8) -> u8
    recommends
        n < 16,
{
    if n < 10 { (48 + n) as u8 } else { (97 + n - 10) as u8 }
}

/// The value of a hex digit of either case; `None` for other bytes.
pub open spec fn hex_digit(c: u8) -> Option<u8> {
    if 48 <= c <= 57 {
        Some((c - 48) as u8)
    } else if 97 <= c <= 102 {
        Some((c - 97 + 10) as u8)
    } else if 65 <= c <= 70 {
        Some((c - 65 + 10) as u8)
    } else {
        None
    }
}

/// Whether a hyphen precedes byte `k` in the UUID text (the groups are
/// 4, 2, 2, 2 and 6 bytes).
pub open spec fn hyphen_before(k: int) -> bool {
    k == 4 || k == 6 || k == 8 || k == 10
}

/// The UUID text of the bytes `b[k..16]`: each byte as two lower-case hex
/// symbols, high nibble first, with a hyphen before bytes 4, 6, 8 and 10.
pub open spec fn uuid_text_from(b: Seq<u8>, k: int) -> Seq<u8>
    decreases 16 - k,
{
    if k < 0 || k >= 16 {
        Seq::<u8>::empty()
    } else {
        (if hyphen_before(k) { seq![45u8] } else { Seq::<u8>::empty() })
            + seq![hex_symbol(b[k] >> 4u8), hex_symbol(b[k] & 15u8)]
            + uuid_text_from(b, k + 1)
    }
}

/// The 36 ASCII bytes of the UUID text of `v`.
pub open spec fn uuid_text(v: u128) -> Seq<u8> {
    uuid_text_from(u128_be_bytes(v), 0)
}

/// Reads the rest of a UUID text into bytes `acc`: hyphens are skipped
/// wherever they stand, every other byte starts a pair of hex digits.
pub open spec fn uuid_scan(rest: Seq<u8>, acc: Seq<u8>) -> Result<Seq<u8>, ParseIdErrorKind>
    decreases rest.len(),
{
    if rest.len() == 0 {
        if acc.len() == 16 {
            Ok(acc)
        } else {
            Err(ParseIdErrorKind::UuidFormat)
        }
    } else if rest[0] == 45 {
        uuid_scan(rest.drop_first(), acc)
    } else if acc.len() >= 16 || rest.len() < 2 {
        Err(ParseIdErrorKind::UuidFormat)
    } else {
        match (hex_digit(rest[0]), hex_digit(rest[1])) {
            (Some(h), Some(l)) => uuid_scan(rest.skip(2), acc.push((h << 4u8) | l)),
            _ => Err(ParseIdErrorKind::InvalidHexChar),
        }
    }
}

/// The 16 bytes that a text with the given bytes parses to as a UUID.
pub open spec fn uuid_decode(s: Seq<u8>) -> Result<Seq<u8>, ParseIdErrorKind> {
    if s.len() != 36 {
        Err(ParseIdErrorKind::UuidLength)
    } else {
        uuid_scan(s, Seq::<u8>::empty())
    }
}

/// A UUIDv7 as specified in RFC 9562.
///
/// 128 bits: 48-bit unix_ts_ms | 4-bit version (0x7) | 12-bit rand_a |
/// 2-bit variant (0b10) | 62-bit rand_b.
#[derive(Clone, Copy, Debug, PartialEq, Eq, Structural, Hash, PartialOrd, Ord)]
pub struct Uuid7 {
    /// Upper 64 bits of the UUID.
    msb: u64,
    /// Lower 64 bits of the UUID.
    lsb: u64,
}

impl View for Uuid7 {
    type V = u128;

    closed spec fn view(&self) -> u128 {
        u128_from_halves(self.msb, self.lsb)
    }
}

/// The UUID text is written in lower-case hex: nibble `n` is the `n`-th
/// character of `0123456789abcdef`.
pub proof fn lemma_hex_alphabet(n: u8)
    requires
        n < 16,
    ensures
        hex_symbol(n) as char == "0123456789abcdef"@[n as int],
{
    reveal_strlit("0123456789abcdef");
    let a = "0123456789abcdef"@;
    assert(a[0] == '0' && a[1] == '1' && a[2] == '2' && a[3] == '3' && a[4] == '4' && a[5] == '5'
        && a[6] == '6' && a[7] == '7' && a[8] == '8' && a[9] == '9' && a[10] == 'a' && a[11] == 'b'
        && a[12] == 'c' && a[13] == 'd' && a[14] == 'e' && a[15] == 'f');
}

/// The hex symbol of a nibble decodes to it and is no hyphen.
pub proof fn lemma_hex_symbol_digit(n: u8)
    requires
        n < 16,
    ensures
        hex_digit(hex_symbol(n)) == Some(n),
        hex_symbol(n) != 45,
        hex_symbol(n) < 128,
{
}

/// The UUID text of 16 bytes from byte `k` on is `2 * (16 - k)` symbols
/// and the hyphens still ahead.
pub proof fn lemma_uuid_text_from_len(b: Seq<u8>, k: int)
    requires
        0 <= k <= 16,
    ensures
        uuid_text_from(b, k).len() == 2 * (16 - k) + (if k <= 4 { 4int } else if k <= 6 {
            3int
        } else if k <= 8 {
            2int
        } else if k <= 10 {
            1int
        } else {
            0int
        }),
    decreases 16 - k,
{
    if k < 16 {
        lemma_uuid_text_from_len(b, k + 1);
    }
}

/// Scanning the UUID text of 16 bytes from byte `k` on, after the first
/// `k` bytes were read, reads exactly those 16 bytes.
proof fn lemma_uuid_scan_text(b: Seq<u8>, k: int)
    requires
        b.len() == 16,
        0 <= k <= 16,
    ensures
        uuid_scan(uuid_text_from(b, k), b.take(k)) == Ok::<Seq<u8>, ParseIdErrorKind>(b),
    decreases 16 - k,
{
    if k == 16 {
        assert(b.take(16) =~= b);
        assert(uuid_text_from(b, 16).len() == 0);
    } else {
        lemma_uuid_scan_text(b, k + 1);
        let x = b[k];
        let h = x >> 4u8;
        let l = x & 15u8;
        assert(h < 16 && l < 16 && ((h << 4u8) | l) == x) by (bit_vector)
            requires
                h == x >> 4u8,
                l == x & 15u8,
        ;
        lemma_hex_symbol_digit(h);
        lemma_hex_symbol_digit(l);
        let pair = seq![hex_symbol(h), hex_symbol(l)];
        let rest = uuid_text_from(b, k + 1);
        lemma_uuid_text_from_len(b, k + 1);
        assert(b.take(k).push(x) =~= b.take(k + 1));
        assert((pair + rest).skip(2) =~= rest);
        let pr = pair + rest;
        assert(pr[0] == hex_symbol(h) && pr[1] == hex_symbol(l) && pr.len() >= 2);
        assert(uuid_scan(pr, b.take(k)) == uuid_scan(rest, b.take(k + 1)));
        if hyphen_before(k) {
            let t = seq![45u8] + pr;
            assert(uuid_text_from(b, k) =~= t);
            assert(t.drop_first() =~= pr);
            assert(t[0] == 45u8);
        } else {
            assert(uuid_text_from(b, k) =~= pr);
        }
    }
}

/// The UUID text of a value parses back to its 16 bytes.
pub proof fn lemma_uuid_text_decode(v: u128)
    ensures
        uuid_decode(uuid_text(v)) == Ok::<Seq<u8>, ParseIdErrorKind>(u128_be_bytes(v)),
{
    let b = u128_be_bytes(v);
    lemma_uuid_text_from_len(b, 0);
    lemma_uuid_scan_text(b, 0);
    assert(b.take(0) =~= Seq::<u8>::empty());
}

/// The text of every UUID is 36 bytes with hyphens at positions 8, 13, 18
/// and 23; position 14 holds the version nibble (bits 76..80).
pub proof fn lemma_uuid_text_layout(v: u128)
    ensures
        uuid_text(v).len() == 36,
        uuid_text(v)[8] == 45,
        uuid_text(v)[13] == 45,
        uuid_text(v)[18] == 45,
        uuid_text(v)[23] == 45,
        uuid_text(v)[14] == hex_symbol(((v >> 76u128) & 15u128) as u8),
{
    let b = u128_be_bytes(v);
    lemma_uuid_text_from_len(b, 0);
    let t0 = uuid_text_from(b, 0);
    let t1 = uuid_text_from(b, 1);
    let t2 = uuid_text_from(b, 2);
    let t3 = uuid_text_from(b, 3);
    let t4 = uuid_text_from(b, 4);
    let t5 = uuid_text_from(b, 5);
    let t6 = uuid_text_from(b, 6);
    let t7 = uuid_text_from(b, 7);
    let t8 = uuid_text_from(b, 8);
    let t9 = uuid_text_from(b, 9);
    let t10 = uuid_text_from(b, 10);
    let t11 = uuid_text_from(b, 11);
    let e = Seq::<u8>::empty();
    assert(t0 =~= e + seq![hex_symbol(b[0] >> 4u8), hex_symbol(b[0] & 15u8)] + t1);
    assert(t1 =~= e + seq![hex_symbol(b[1] >> 4u8), hex_symbol(b[1] & 15u8)] + t2);
    assert(t2 =~= e + seq![hex_symbol(b[2] >> 4u8), hex_symbol(b[2] & 15u8)] + t3);
    assert(t3 =~= e + seq![hex_symbol(b[3] >> 4u8), hex_symbol(b[3] & 15u8)] + t4);
    assert(t4 =~= seq![45u8] + seq![hex_symbol(b[4] >> 4u8), hex_symbol(b[4] & 15u8)] + t5);
    assert(t5 =~= e + seq![hex_symbol(b[5] >> 4u8), hex_symbol(b[5] & 15u8)] + t6);
    assert(t6 =~= seq![45u8] + seq![hex_symbol(b[6] >> 4u8), hex_symbol(b[6] & 15u8)] + t7);
    assert(t7 =~= e + seq![hex_symbol(b[7] >> 4u8), hex_symbol(b[7] & 15u8)] + t8);
    assert(t8 =~= seq![45u8] + seq![hex_symbol(b[8] >> 4u8), hex_symbol(b[8] & 15u8)] + t9);
    assert(t9 =~= e + seq![hex_symbol(b[9] >> 4u8), hex_symbol(b[9] & 15u8)] + t10);
    assert(t10 =~= seq![45u8] + seq![hex_symbol(b[10] >> 4u8), hex_symbol(b[10] & 15u8)] + t11);
    assert(t0[8] == t4[0]);
    assert(t0[13] == t6[0]);
    assert(t0[14] == t6[1]);
    assert(t0[18] == t8[0]);
    assert(t0[23] == t10[0]);
    assert(b[6] == (v >> 72u128) as u8);
    assert((((v >> 72u128) as u8) >> 4u8) == ((v >> 76u128) & 15u128) as u8) by (bit_vector);
}

/// A UUIDv7 made at a millisecond below 2^48 carries that millisecond as
/// its timestamp, version 7 in bits 76..80 and variant 0b10 in its top two
/// low-half bits, whatever the random bits.
pub proof fn lemma_uuid7_fields(ms: u64, rng: u64)
    ensures
        ((uuid7_generated(ms, rng) >> 76u128) & 15u128) == 7,
        ((uuid7_generated(ms, rng) as u64) >> 62u64) == 2,
        ms < 0x1_0000_0000_0000 ==> (uuid7_generated(ms, rng) >> 80u128) as u64 == ms,
{
    let r1 = xorshift_step(rng);
    let r2 = xorshift_step(r1);
    let m = uuid7_msb(ms, r1);
    let l = uuid7_lsb(r2);
    assert({
        let v = ((m as u128) << 64u128) | (l as u128);
        &&& (v >> 76u128) & 15u128 == 7
        &&& ((v as u64) >> 62u64) == 2
        &&& (ms < 0x1_0000_0000_0000u64 ==> (v >> 80u128) as u64 == ms)
    }) by (bit_vector)
        requires
            m == (ms << 16u64) | (7u64 << 12u64) | (r1 & 0x0FFFu64),
            l == (2u64 << 62u64) | (r2 & 0x3FFF_FFFF_FFFF_FFFFu64),
    ;
}

/// The UUID text of bytes from byte `k` on is ASCII.
proof fn lemma_uuid_text_from_ascii(b: Seq<u8>, k: int)
    requires
        0 <= k <= 16,
    ensures
        all_ascii(uuid_text_from(b, k)),
    decreases 16 - k,
{
    if k < 16 {
        lemma_uuid_text_from_ascii(b, k + 1);
        let x = b[k];
        assert(x >> 4u8 < 16 && x & 15u8 < 16) by (bit_vector);
        lemma_hex_symbol_digit(x >> 4u8);
        lemma_hex_symbol_digit(x & 15u8);
        let pre = (if hyphen_before(k) { seq![45u8] } else { Seq::<u8>::empty() })
            + seq![hex_symbol(x >> 4u8), hex_symbol(x & 15u8)];
        let t = pre + uuid_text_from(b, k + 1);
        assert(uuid_text_from(b, k) == t);
        assert forall|i: int| 0 <= i < t.len() implies #[trigger] t[i] < 128 by {
            if i >= pre.len() {
                assert(t[i] == uuid_text_from(b, k + 1)[i - pre.len()]);
            }
        }
    }
}

/// The text that [`Uuid7::to_string`] gives parses back, through
/// [`Uuid7::parse`], to the same 16 bytes.
pub proof fn lemma_uuid_string_roundtrip(v: u128)
    ensures
        uuid_decode(encode_utf8(byte_chars(uuid_text(v))))
            == Ok::<Seq<u8>, ParseIdErrorKind>(u128_be_bytes(v)),
{
    lemma_uuid_text_from_ascii(u128_be_bytes(v), 0);
    lemma_ascii_bytes_encode(uuid_text(v));
    lemma_uuid_text_decode(v);
}

/// UUIDv7s are time-sortable: one made at an earlier millisecond (both
/// below 2^48) is the smaller, whatever the random bits.
pub proof fn lemma_uuid7_time_order(ms1: u64, rng1: u64, ms2: u64, rng2: u64)
    requires
        ms1 < ms2 < 0x1_0000_0000_0000,
    ensures
        uuid7_generated(ms1, rng1) < uuid7_generated(ms2, rng2),
{
    let a1 = xorshift_step(rng1);
    let b1 = xorshift_step(a1);
    let a2 = xorshift_step(rng2);
    let b2 = xorshift_step(a2);
    let m1 = uuid7_msb(ms1, a1);
    let l1 = uuid7_lsb(b1);
    let m2 = uuid7_msb(ms2, a2);
    let l2 = uuid7_lsb(b2);
    assert(((m1 as u128) << 64u128) | (l1 as u128) < ((m2 as u128) << 64u128) | (l2 as u128))
        by (bit_vector)
        requires
            ms1 < ms2,
            ms2 < 0x1_0000_0000_0000u64,
            m1 == (ms1 << 16u64) | (7u64 << 12u64) | (a1 & 0x0FFFu64),
            m2 == (ms2 << 16u64) | (7u64 << 12u64) | (a2 & 0x0FFFu64),
    ;
}

/// The value of the first `k` bytes of `v`.
spec fn byte_prefix_value(v: u128, k: int) -> u128 {
    v >> ((128 - 8 * k) as u128)
}

proof fn lemma_byte_prefix_step(v: u128, k: int)
    requires
        0 <= k < 16,
    ensures
        byte_prefix_value(v, k + 1) as int == 256 * byte_prefix_value(v, k) as int
            + u128_be_bytes(v)[k] as int,
{
    let s: u128 = (120 - 8 * k) as u128;
    assert((v >> s) as int == (v >> ((s + 8) as u128)) as int * 256 + ((v >> s) as u8) as int)
        by (bit_vector)
        requires
            s <= 120,
    ;
    assert((128 - 8 * (k + 1)) as u128 == s);
    assert((128 - 8 * k) as u128 == (s + 8) as u128);
    assert(u128_be_bytes(v)[k] == (v >> s) as u8);
}

proof fn lemma_first_byte_difference(v1: u128, v2: u128, k: int) -> (i: int)
    requires
        0 <= k <= 16,
        v1 != v2,
        byte_prefix_value(v1, k) == byte_prefix_value(v2, k),
        forall|j: int| 0 <= j < k ==> u128_be_bytes(v1)[j] == u128_be_bytes(v2)[j],
    ensures
        k <= i < 16,
        byte_prefix_value(v1, i) == byte_prefix_value(v2, i),
        u128_be_bytes(v1)[i] != u128_be_bytes(v2)[i],
        forall|j: int| 0 <= j < i ==> u128_be_bytes(v1)[j] == u128_be_bytes(v2)[j],
    decreases 16 - k,
{
    if k == 16 {
        assert(v1 >> 0u128 == v1 && v2 >> 0u128 == v2) by (bit_vector);
        assert((128 - 8 * 16) as u128 == 0u128);
        assert(false);
        0
    } else {
        lemma_byte_prefix_step(v1, k);
        lemma_byte_prefix_step(v2, k);
        if u128_be_bytes(v1)[k] == u128_be_bytes(v2)[k] {
            lemma_first_byte_difference(v1, v2, k + 1)
        } else {
            k
        }
    }
}

/// A smaller value has a smaller first differing byte.
proof fn lemma_bytes_before(v1: u128, v2: u128) -> (i: int)
    requires
        v1 < v2,
    ensures
        lex_less_at(u128_be_bytes(v1), u128_be_bytes(v2), i),
{
    assert(byte_prefix_value(v1, 0) == 0 && byte_prefix_value(v2, 0) == 0) by {
        assert((128 - 8 * 0) as u128 == 128u128);
        assert(v1 >> 128u128 == 0 && v2 >> 128u128 == 0) by (bit_vector);
    }
    let i = lemma_first_byte_difference(v1, v2, 0);
    lemma_byte_prefix_step(v1, i);
    lemma_byte_prefix_step(v2, i);
    let s = (128 - 8 * (i + 1)) as u128;
    assert(v1 >> s <= v2 >> s) by (bit_vector)
        requires
            v1 < v2,
    ;
    assert(u128_be_bytes(v1).take(i) =~= u128_be_bytes(v2).take(i));
    i
}

/// The UUID texts of byte strings that first differ at byte `k0`, with the
/// smaller byte in `b1`, are in the same order from byte `k <= k0` on.
proof fn lemma_uuid_text_from_order(b1: Seq<u8>, b2: Seq<u8>, k: int, k0: int) -> (h: int)
    requires
        b1.len() == 16,
        b2.len() == 16,
        0 <= k <= k0 < 16,
        lex_less_at(b1, b2, k0),
    ensures
        lex_less_at(uuid_text_from(b1, k), uuid_text_from(b2, k), h),
    decreases k0 - k,
{
    let x1 = b1[k];
    let x2 = b2[k];
    let hy = if hyphen_before(k) { seq![45u8] } else { Seq::<u8>::empty() };
    let r1 = uuid_text_from(b1, k + 1);
    let r2 = uuid_text_from(b2, k + 1);
    assert(uuid_text_from(b1, k) == hy + seq![hex_symbol(x1 >> 4u8), hex_symbol(x1 & 15u8)] + r1);
    assert(uuid_text_from(b2, k) == hy + seq![hex_symbol(x2 >> 4u8), hex_symbol(x2 & 15u8)] + r2);
    if k < k0 {
        assert(b1.take(k0)[k] == b2.take(k0)[k]);
        let i = lemma_uuid_text_from_order(b1, b2, k + 1, k0);
        let pre = hy + seq![hex_symbol(x1 >> 4u8), hex_symbol(x1 & 15u8)];
        lemma_lex_less_prepend(pre, r1, r2, i);
        assert(uuid_text_from(b1, k) =~= pre + r1);
        assert(uuid_text_from(b2, k) =~= pre + r2);
        pre.len() + i
    } else {
        assert((x1 >> 4u8 < x2 >> 4u8) || (x1 >> 4u8 == x2 >> 4u8 && x1 & 15u8 < x2 & 15u8))
            by (bit_vector)
            requires
                x1 < x2,
        ;
        assert(x1 >> 4u8 < 16 && x1 & 15u8 < 16 && x2 >> 4u8 < 16 && x2 & 15u8 < 16)
            by (bit_vector);
        lemma_uuid_text_from_len(b1, k + 1);
        lemma_uuid_text_from_len(b2, k + 1);
        let t1 = uuid_text_from(b1, k);
        let t2 = uuid_text_from(b2, k);
        if x1 >> 4u8 < x2 >> 4u8 {
            let h = hy.len() as int;
            assert(t1.take(h) =~= t2.take(h));
            h
        } else {
            let h = hy.len() as int + 1;
            assert(t1.take(h) =~= t2.take(h));
            h
        }
    }
}

/// UUIDs sort as their texts do: one value is below another exactly when
/// its 36-character text comes first in byte-wise lexicographic order, so
/// UUIDv7 texts sort by time.
pub proof fn lemma_uuid_text_order(v1: u128, v2: u128)
    ensures
        v1 < v2 <==> lex_less(uuid_text(v1), uuid_text(v2)),
{
    let t1 = uuid_text(v1);
    let t2 = uuid_text(v2);
    lemma_uuid_text_from_len(u128_be_bytes(v1), 0);
    lemma_uuid_text_from_len(u128_be_bytes(v2), 0);
    if v1 < v2 {
        let k0 = lemma_bytes_before(v1, v2);
        let h = lemma_uuid_text_from_order(u128_be_bytes(v1), u128_be_bytes(v2), 0, k0);
        assert(lex_less_at(t1, t2, h));
    } else if v2 < v1 {
        let k0 = lemma_bytes_before(v2, v1);
        let h = lemma_uuid_text_from_order(u128_be_bytes(v2), u128_be_bytes(v1), 0, k0);
        assert(lex_less_at(t2, t1, h));
        lemma_lex_less_asymmetric(t1, t2);
    } else {
        lemma_lex_less_asymmetric(t1, t1);
    }
}

/// The exec counterpart of [`hex_symbol`].
fn hex_encode_nibble(n: u8) -> (c: u8)
    requires
        n < 16,
    ensures
        c == hex_symbol(n),
{
    if n < 10 { 48 + n } else { 97 + n - 10 }
}

/// Decodes one hex digit of either case.
pub fn hex_val(c: u8) -> (r: Option<u8>)
    ensures
        r == hex_digit(c),
{
    if 48 <= c && c <= 57 {
        Some(c - 48)
    } else if 97 <= c && c <= 102 {
        Some(c - 97 + 10)
    } else if 65 <= c && c <= 70 {
        Some(c - 65 + 10)
    } else {
        None
    }
}

impl Uuid7 {
    /// A UUIDv7 with the given timestamp and fresh random bits: 12 from the
    /// first draw, 62 from the second.
    pub fn from_timestamp_ms(ms: u64, generator: &mut IdGenerator) -> (u: Uuid7)
        ensures
            u@ == uuid7_generated(ms, old(generator)@.rng),
            final(generator)@ == after_draw(after_draw(old(generator)@)),
    {
        let r1 = generator.next_u64();
        let r2 = generator.next_u64();
        let rand_a = r1 & 0x0FFF;
        let msb = (ms << 16) | (0x7 << 12) | rand_a;
        let rand_b = r2 & 0x3FFF_FFFF_FFFF_FFFF;
        let lsb = (0b10u64 << 62) | rand_b;
        Uuid7 { msb, lsb }
    }

    /// Generates a new UUIDv7 with the current timestamp.
    pub fn new(generator: &mut IdGenerator) -> (u: Uuid7)
        ensures
            exists|ms: u64| u@ == #[trigger] uuid7_generated(ms, old(generator)@.rng),
            final(generator)@ == after_draw(after_draw(old(generator)@)),
    {
        let ms = now_millis();
        Uuid7::from_timestamp_ms(ms, generator)
    }

    /// Returns the timestamp component in milliseconds since Unix epoch.
    pub fn timestamp_ms(&self) -> (ms: u64)
        ensures
            ms == (self@ >> 80u128) as u64,
    {
        let m = self.msb;
        let l = self.lsb;
        assert(((((m as u128) << 64u128) | (l as u128)) >> 80u128) as u64 == m >> 16u64)
            by (bit_vector);
        self.msb >> 16
    }

    /// The 16 bytes of the UUID, most significant first.
    pub fn to_bytes(&self) -> (b: [u8; 16])
        ensures
            b@ == u128_be_bytes(self@),
    {
        let m = self.msb;
        let l = self.lsb;
        let b: [u8; 16] = [
            (m >> 56) as u8, (m >> 48) as u8, (m >> 40) as u8, (m >> 32) as u8,
            (m >> 24) as u8, (m >> 16) as u8, (m >> 8) as u8, m as u8,
            (l >> 56) as u8, (l >> 48) as u8, (l >> 40) as u8, (l >> 32) as u8,
            (l >> 24) as u8, (l >> 16) as u8, (l >> 8) as u8, l as u8,
        ];
        proof {
            lemma_be_bytes_of_halves(m, l);
        }
        assert(b@ =~= u128_be_bytes(self@));
        b
    }

    /// The UUID whose 16 bytes, most significant first, are `b`.
    pub fn from_bytes(b: [u8; 16]) -> (u: Uuid7)
        ensures
            u128_be_bytes(u@) == b@,
    {
        let msb: u64 = ((b[0] as u64) << 56) | ((b[1] as u64) << 48) | ((b[2] as u64) << 40)
            | ((b[3] as u64) << 32) | ((b[4] as u64) << 24) | ((b[5] as u64) << 16)
            | ((b[6] as u64) << 8) | (b[7] as u64);
        let lsb: u64 = ((b[8] as u64) << 56) | ((b[9] as u64) << 48) | ((b[10] as u64) << 40)
            | ((b[11] as u64) << 32) | ((b[12] as u64) << 24) | ((b[13] as u64) << 16)
            | ((b[14] as u64) << 8) | (b[15] as u64);
        proof {
            lemma_u64_be_compose(b[0], b[1], b[2], b[3], b[4], b[5], b[6], b[7], msb);
            lemma_u64_be_compose(b[8], b[9], b[10], b[11], b[12], b[13], b[14], b[15], lsb);
            lemma_be_bytes_of_halves(msb, lsb);
        }
        let u = Uuid7 { msb, lsb };
        assert(u128_be_bytes(u@) =~= b@);
        u
    }

    /// The 36-character text `xxxxxxxx-xxxx-xxxx-xxxx-xxxxxxxxxxxx`, lower-case hex.
    pub fn to_string(&self) -> (s: String)
        ensures
            s@ == byte_chars(uuid_text(self@)),
    {
        let bytes = self.to_bytes();
        let ghost b = bytes@;
        let mut s = String::new();
        let mut i: usize = 0;
        while i < 16
            invariant
                i <= 16,
                bytes@ == b,
                b == u128_be_bytes(self@),
                byte_chars(uuid_text_from(b, 0)) =~= s@ + byte_chars(uuid_text_from(b, i as int)),
            decreases 16 - i,
        {
            let ghost before = s@;
            let byte = bytes[i];
            if i == 4 || i == 6 || i == 8 || i == 10 {
                string_push(&mut s, '-');
            }
            assert(byte >> 4u8 < 16 && byte & 15u8 < 16) by (bit_vector);
            let hi = hex_encode_nibble(byte >> 4);
            let lo = hex_encode_nibble(byte & 0x0F);
            string_push(&mut s, hi as char);
            string_push(&mut s, lo as char);
            proof {
                let step = (if hyphen_before(i as int) { seq![45u8] } else { Seq::<u8>::empty() })
                    + seq![hex_symbol(byte >> 4u8), hex_symbol(byte & 15u8)];
                assert(uuid_text_from(b, i as int) == step + uuid_text_from(b, i + 1));
                assert(byte_chars(step + uuid_text_from(b, i + 1)) =~= byte_chars(step)
                    + byte_chars(uuid_text_from(b, i + 1)));
                assert(s@ =~= before + byte_chars(step));
            }
            i = i + 1;
        }
        assert(uuid_text_from(b, 16) =~= Seq::<u8>::empty());
        assert(s@ =~= byte_chars(uuid_text_from(b, 0)));
        s
    }

    /// Parses a UUID from its text: 36 bytes of hex pairs (either case)
    /// and hyphens, which may stand anywhere between pairs.
    pub fn parse(s: &str) -> (r: Result<Uuid7, ParseIdError>)
        ensures
            match uuid_decode(s.spec_bytes()) {
                Ok(b) => r matches Ok(u) && u128_be_bytes(u@) == b,
                Err(kind) => r == Err::<Uuid7, ParseIdError>(ParseIdError { kind }),
            },
    {
        let chars = s.as_bytes();
        if chars.len() != 36 {
            return Err(ParseIdError { kind: ParseIdErrorKind::UuidLength });
        }
        let mut bytes: Vec<u8> = Vec::new();
        let mut i: usize = 0;
        assert(chars@.skip(0) =~= chars@);
        while i < chars.len()
            invariant
                i <= chars@.len(),
                chars@.len() == 36,
                chars@ == s.spec_bytes(),
                bytes@.len() <= 16,
                uuid_scan(chars@.skip(i as int), bytes@) == uuid_scan(chars@, Seq::<u8>::empty()),
            decreases chars@.len() - i,
        {
            let ghost rest = chars@.skip(i as int);
            assert(rest[0] == chars@[i as int]);
            if chars[i] == 45 {
                assert(rest.drop_first() =~= chars@.skip(i + 1));
                i = i + 1;
                continue;
            }
            if bytes.len() >= 16 || i + 1 >= chars.len() {
                return Err(ParseIdError { kind: ParseIdErrorKind::UuidFormat });
            }
            assert(rest[1] == chars@[i + 1]);
            let hi = match hex_val(chars[i]) {
                Some(h) => h,
                None => {
                    return Err(ParseIdError { kind: ParseIdErrorKind::InvalidHexChar });
                },
            };
            let lo = match hex_val(chars[i + 1]) {
                Some(l) => l,
                None => {
                    return Err(ParseIdError { kind: ParseIdErrorKind::InvalidHexChar });
                },
            };
            bytes.push((hi << 4) | lo);
            assert(rest.skip(2) =~= chars@.skip(i + 2));
            i = i + 2;
        }
        assert(chars@.skip(i as int).len() == 0);
        if bytes.len() != 16 {
            return Err(ParseIdError { kind: ParseIdErrorKind::UuidFormat });
        }
        let msb: u64 = ((bytes[0] as u64) << 56) | ((bytes[1] as u64) << 48)
            | ((bytes[2] as u64) << 40) | ((bytes[3] as u64) << 32) | ((bytes[4] as u64) << 24)
            | ((bytes[5] as u64) << 16) | ((bytes[6] as u64) << 8) | (bytes[7] as u64);
        let lsb: u64 = ((bytes[8] as u64) << 56) | ((bytes[9] as u64) << 48)
            | ((bytes[10] as u64) << 40) | ((bytes[11] as u64) << 32)
            | ((bytes[12] as u64) << 24) | ((bytes[13] as u64) << 16)
            | ((bytes[14] as u64) << 8) | (bytes[15] as u64);
        proof {
            lemma_u64_be_compose(
                bytes[0], bytes[1], bytes[2], bytes[3], bytes[4], bytes[5], bytes[6], bytes[7],
                msb,
            );
            lemma_u64_be_compose(
                bytes[8], bytes[9], bytes[10], bytes[11], bytes[12], bytes[13], bytes[14],
                bytes[15], lsb,
            );
            lemma_be_bytes_of_halves(msb, lsb);
        }
        let u = Uuid7 { msb, lsb };
        assert(u128_be_bytes(u@) =~= bytes@);
        Ok(u)
    }
}

impl std::str::FromStr for Uuid7 {
    type Err = ParseIdError;

    fn from_str(s: &str) -> (r: Result<Uuid7, ParseIdError>)
        ensures
            match uuid_decode(s.spec_bytes()) {
                Ok(b) => r matches Ok(u) && u128_be_bytes(u@) == b,
                Err(kind) => r == Err::<Uuid7, ParseIdError>(ParseIdError { kind }),
            },
    {
        Uuid7::parse(s)
    }
}

} // verus!
