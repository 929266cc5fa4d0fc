//! 128-bit values as two 64-bit halves and as 16 big-endian bytes.
use vstd::prelude::*;

verus! {

/// The 128-bit value whose upper half is `msb` and lower half is `lsb`.
pub open spec fn u128_from_halves(msb: u64, lsb: u64) -> u128 {
    ((msb as u128) << 64u128) | (lsb as u128)
}

/// The 16 bytes of `v`, most significant first.
pub open spec fn u128_be_bytes(v: u128) -> Seq<u8> {
    Seq::new(16, |i: int| (v >> ((8 * (15 - i)) as u128)) as u8)
}

/// Splitting a 128-bit value into halves and joining them gives it back.
pub proof fn lemma_u128_halves(v: u128)
    ensures
        u128_from_halves((v >> 64u128) as u64, v as u64) == v,
{
    assert(((((v >> 64u128) as u64) as u128) << 64u128) | ((v as u64) as u128) == v)
        by (bit_vector);
}

/// The 16 bytes of a value joined from two halves are the 8 bytes of each
/// half, most significant first.
pub proof fn lemma_be_bytes_of_halves(m: u64, l: u64)
    ensures
        ({
            let b = u128_be_bytes(u128_from_halves(m, l));
            &&& b[0] == (m >> 56u64) as u8
            &&& b[1] == (m >> 48u64) as u8
            &&& b[2] == (m >> 40u64) as u8
            &&& b[3] == (m >> 32u64) as u8
            &&& b[4] == (m >> 24u64) as u8
            &&& b[5] == (m >> 16u64) as u8
            &&& b[6] == (m >> 8u64) as u8
            &&& b[7] == m as u8
            &&& b[8] == (l >> 56u64) as u8
            &&& b[9] == (l >> 48u64) as u8
            &&& b[10] == (l >> 40u64) as u8
            &&& b[11] == (l >> 32u64) as u8
            &&& b[12] == (l >> 24u64) as u8
            &&& b[13] == (l >> 16u64) as u8
            &&& b[14] == (l >> 8u64) as u8
            &&& b[15] == l as u8
        }),
{
    let v = u128_from_halves(m, l);
    assert({
        &&& (v >> 120u128) as u8 == (m >> 56u64) as u8
        &&& (v >> 112u128) as u8 == (m >> 48u64) as u8
        &&& (v >> 104u128) as u8 == (m >> 40u64) as u8
        &&& (v >> 96u128) as u8 == (m >> 32u64) as u8
        &&& (v >> 88u128) as u8 == (m >> 24u64) as u8
        &&& (v >> 80u128) as u8 == (m >> 16u64) as u8
        &&& (v >> 72u128) as u8 == (m >> 8u64) as u8
        &&& (v >> 64u128) as u8 == m as u8
        &&& (v >> 56u128) as u8 == (l >> 56u64) as u8
        &&& (v >> 48u128) as u8 == (l >> 48u64) as u8
        &&& (v >> 40u128) as u8 == (l >> 40u64) as u8
        &&& (v >> 32u128) as u8 == (l >> 32u64) as u8
        &&& (v >> 24u128) as u8 == (l >> 24u64) as u8
        &&& (v >> 16u128) as u8 == (l >> 16u64) as u8
        &&& (v >> 8u128) as u8 == (l >> 8u64) as u8
        &&& (v >> 0u128) as u8 == l as u8
    }) by (bit_vector)
        requires
            v == ((m as u128) << 64u128) | (l as u128),
    ;
}

/// The bytes of a `u64` composed from 8 bytes, most significant first, are
/// those bytes.
pub proof fn lemma_u64_be_compose(b0: u8, b1: u8, b2: u8, b3: u8, b4: u8, b5: u8, b6: u8, b7: u8, x: u64)
    requires
        x == ((b0 as u64) << 56u64) | ((b1 as u64) << 48u64) | ((b2 as u64) << 40u64)
            | ((b3 as u64) << 32u64) | ((b4 as u64) << 24u64) | ((b5 as u64) << 16u64)
            | ((b6 as u64) << 8u64) | (b7 as u64),
    ensures
        (x >> 56u64) as u8 == b0,
        (x >> 48u64) as u8 == b1,
        (x >> 40u64) as u8 == b2,
        (x >> 32u64) as u8 == b3,
        (x >> 24u64) as u8 == b4,
        (x >> 16u64) as u8 == b5,
        (x >> 8u64) as u8 == b6,
        x as u8 == b7,
{
    assert({
        &&& (x >> 56u64) as u8 == b0
        &&& (x >> 48u64) as u8 == b1
        &&& (x >> 40u64) as u8 == b2
        &&& (x >> 32u64) as u8 == b3
        &&& (x >> 24u64) as u8 == b4
        &&& (x >> 16u64) as u8 == b5
        &&& (x >> 8u64) as u8 == b6
        &&& x as u8 == b7
    }) by (bit_vector)
        requires
            x == ((b0 as u64) << 56u64) | ((b1 as u64) << 48u64) | ((b2 as u64) << 40u64)
                | ((b3 as u64) << 32u64) | ((b4 as u64) << 24u64) | ((b5 as u64) << 16u64)
                | ((b6 as u64) << 8u64) | (b7 as u64),
    ;
}

/// Two 128-bit values with the same 16 bytes are equal, so a ULID is fixed
/// by its byte form.
pub proof fn lemma_u128_be_bytes_injective(x: u128, y: u128)
    requires
        u128_be_bytes(x) == u128_be_bytes(y),
    ensures
        x == y,
{
    let bx = u128_be_bytes(x);
    let by_ = u128_be_bytes(y);
    assert(bx[0] == by_[0]);
    assert(bx[1] == by_[1]);
    assert(bx[2] == by_[2]);
    assert(bx[3] == by_[3]);
    assert(bx[4] == by_[4]);
    assert(bx[5] == by_[5]);
    assert(bx[6] == by_[6]);
    assert(bx[7] == by_[7]);
    assert(bx[8] == by_[8]);
    assert(bx[9] == by_[9]);
    assert(bx[10] == by_[10]);
    assert(bx[11] == by_[11]);
    assert(bx[12] == by_[12]);
    assert(bx[13] == by_[13]);
    assert(bx[14] == by_[14]);
    assert(bx[15] == by_[15]);
    assert(x == y) by (bit_vector)
        requires
            (x >> 120u128) as u8 == (y >> 120u128) as u8,
            (x >> 112u128) as u8 == (y >> 112u128) as u8,
            (x >> 104u128) as u8 == (y >> 104u128) as u8,
            (x >> 96u128) as u8 == (y >> 96u128) as u8,
            (x >> 88u128) as u8 == (y >> 88u128) as u8,
            (x >> 80u128) as u8 == (y >> 80u128) as u8,
            (x >> 72u128) as u8 == (y >> 72u128) as u8,
            (x >> 64u128) as u8 == (y >> 64u128) as u8,
            (x >> 56u128) as u8 == (y >> 56u128) as u8,
            (x >> 48u128) as u8 == (y >> 48u128) as u8,
            (x >> 40u128) as u8 == (y >> 40u128) as u8,
            (x >> 32u128) as u8 == (y >> 32u128) as u8,
            (x >> 24u128) as u8 == (y >> 24u128) as u8,
            (x >> 16u128) as u8 == (y >> 16u128) as u8,
            (x >> 8u128) as u8 == (y >> 8u128) as u8,
            (x >> 0u128) as u8 == (y >> 0u128) as u8,
    ;
}

} // verus!
