//! Decimal text of `u64` values.
use vstd::prelude::*;
use vstd::string::StringSliceAdditionalSpecFns;
use crate::text::{byte_chars, all_ascii, lemma_ascii_bytes_encode};
use vstd::utf8::encode_utf8;

verus! {

/// The decimal digits of `v`, most significant first, without leading
/// zeros (`0` is the single digit `0`), as ASCII bytes.
pub open spec fn decimal_digits(v: nat) -> Seq<u8>
    decreases v,
{
    if v < 10 {
        seq![(48 + v) as u8]
    } else {
        decimal_digits(v / 10).push((48 + v % 10) as u8)
    }
}

/// Whether every byte is an ASCII decimal digit.
pub open spec fn all_decimal_digits(s: Seq<u8>) -> bool {
    forall|i: int| 0 <= i < s.len() ==> 48 <= #[trigger] s[i] <= 57
}

/// The number that ASCII decimal digits stand for, most significant first.
pub open spec fn digits_value(s: Seq<u8>) -> nat
    decreases s.len(),
{
    if s.len() == 0 {
        0
    } else {
        digits_value(s.drop_last()) * 10 + (s.last() - 48) as nat
    }
}

/// What `u64`'s `FromStr` gives for a text with these bytes: an optional
/// `+` followed by one or more decimal digits whose value fits in 64 bits.
pub open spec fn parse_u64_decimal(s: Seq<u8>) -> Option<u64> {
    let body = if s.len() > 0 && s[0] == 43 { s.drop_first() } else { s };
    if body.len() > 0 && all_decimal_digits(body) && digits_value(body) <= u64::MAX {
        Some(digits_value(body) as u64)
    } else {
        None
    }
}

/// Calls `u64::to_string`, whose `Display` writes the decimal digits of
/// the value without sign or leading zeros.
#[verifier::external_body]
pub(crate) fn u64_to_decimal(v: u64) -> (s: String)
    ensures
        s@ == byte_chars(decimal_digits(v as nat)),
{
    v.to_string()
}

/// Calls `str::parse::<u64>`, which accepts an optional `+` followed by
/// decimal digits whose value fits in a `u64`, and fails on anything else.
#[verifier::external_body]
pub(crate) fn parse_u64(s: &str) -> (r: Option<u64>)
    ensures
        r == parse_u64_decimal(s.spec_bytes()),
{
    match s.parse::<u64>() {
        Ok(v) => Some(v),
        Err(_) => None,
    }
}

/// The decimal digits of a number are digits, start with no `+`, are below
/// 128, and stand for that number.
pub proof fn lemma_decimal_digits(v: nat)
    ensures
        decimal_digits(v).len() > 0,
        all_decimal_digits(decimal_digits(v)),
        digits_value(decimal_digits(v)) == v,
    decreases v,
{
    if v >= 10 {
        lemma_decimal_digits(v / 10);
        let d = decimal_digits(v);
        assert(d.drop_last() =~= decimal_digits(v / 10));
        assert(d.last() == (48 + v % 10) as u8);
        assert(digits_value(d) == digits_value(d.drop_last()) * 10 + (d.last() - 48) as nat);
        assert((v / 10) * 10 + v % 10 == v) by (nonlinear_arith);
    } else {
        let d = decimal_digits(v);
        assert(d.drop_last() =~= Seq::<u8>::empty());
        assert(digits_value(d) == digits_value(d.drop_last()) * 10 + (d.last() - 48) as nat);
    }
}

/// The decimal text of a `u64` parses back to it.
pub proof fn lemma_decimal_roundtrip(v: u64)
    ensures
        parse_u64_decimal(decimal_digits(v as nat)) == Some(v),
{
    lemma_decimal_digits(v as nat);
    let d = decimal_digits(v as nat);
    assert(48 <= d[0] <= 57);
}

/// The decimal text of a `u64`, as a string, parses back to it.
pub proof fn lemma_decimal_string_roundtrip(v: u64)
    ensures
        parse_u64_decimal(encode_utf8(byte_chars(decimal_digits(v as nat)))) == Some(v),
{
    lemma_decimal_digits(v as nat);
    let d = decimal_digits(v as nat);
    assert(all_ascii(d)) by {
        assert forall|i: int| 0 <= i < d.len() implies #[trigger] d[i] < 128 by {
            assert(48 <= d[i] <= 57);
        }
    }
    lemma_ascii_bytes_encode(d);
    lemma_decimal_roundtrip(v);
}

} // verus!
