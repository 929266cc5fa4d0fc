//! The per-thread generator state: the random source, and what the last
//! ULID was made of, so that ULIDs made in one millisecond stay ordered.
use vstd::prelude::*;
use crate::rng::{Xorshift64, xorshift_step, seeded_state};
use crate::ulid::Ulid;
use crate::bytes128::u128_from_halves;
use crate::clock::now_millis;

verus! {

/// What an [`IdGenerator`] holds: the random generator's state, and the
/// millisecond and 80 random bits (16 high, 64 low) of the last ULID made
/// by [`IdGenerator::next_ulid`].
pub struct GeneratorState {
    pub rng: u64,
    pub last_ms: u64,
    pub last_rand_hi: u16,
    pub last_rand_lo: u64,
}

/// The random source and ULID monotonic state of one thread of identifier
/// generation.
pub struct IdGenerator {
    rng: Xorshift64,
    ulid_last_ms: u64,
    ulid_last_rand_hi: u16,
    ulid_last_rand_lo: u64,
}

impl View for IdGenerator {
    type V = GeneratorState;

    closed spec fn view(&self) -> GeneratorState {
        GeneratorState {
            rng: self.rng@,
            last_ms: self.ulid_last_ms,
            last_rand_hi: self.ulid_last_rand_hi,
            last_rand_lo: self.ulid_last_rand_lo,
        }
    }
}

/// The state after one draw from the random generator.
pub open spec fn after_draw(g: GeneratorState) -> GeneratorState {
    GeneratorState { rng: xorshift_step(g.rng), ..g }
}

/// The upper 64 bits of a ULID: the timestamp (its low 48 bits) above the
/// 16 high random bits.
pub open spec fn ulid_msb(ms: u64, hi: u16) -> u64 {
    (ms << 16u64) | (hi as u64)
}

/// The ULID value made of a timestamp and 80 random bits.
pub open spec fn ulid_compose(ms: u64, hi: u16, lo: u64) -> u128 {
    u128_from_halves(ulid_msb(ms, hi), lo)
}

/// One step of monotonic ULID generation at millisecond `ms`: in the
/// millisecond of the last ULID, the 80 random bits of that ULID plus one
/// (wrapping); in another millisecond, 80 fresh random bits (16 from the
/// first draw, 64 from the second).
pub open spec fn ulid_step(g: GeneratorState, ms: u64) -> (u128, GeneratorState) {
    if ms == g.last_ms {
        let lo: u64 = if g.last_rand_lo == u64::MAX { 0 } else { (g.last_rand_lo + 1) as u64 };
        let hi: u16 = if lo != 0 {
            g.last_rand_hi
        } else if g.last_rand_hi == u16::MAX {
            0
        } else {
            (g.last_rand_hi + 1) as u16
        };
        (ulid_compose(ms, hi, lo), GeneratorState { last_rand_hi: hi, last_rand_lo: lo, ..g })
    } else {
        let r1 = xorshift_step(g.rng);
        let r2 = xorshift_step(r1);
        let hi = (r1 & 0xFFFFu64) as u16;
        (
            ulid_compose(ms, hi, r2),
            GeneratorState { rng: r2, last_ms: ms, last_rand_hi: hi, last_rand_lo: r2 },
        )
    }
}

impl IdGenerator {
    /// A generator whose random source is seeded with `seed` and which has
    /// made no ULID yet (its last millisecond reads 0).
    pub fn new(seed: u64) -> (g: IdGenerator)
        ensures
            g@ == (GeneratorState {
                rng: seeded_state(seed),
                last_ms: 0,
                last_rand_hi: 0,
                last_rand_lo: 0,
            }),
    {
        IdGenerator {
            rng: Xorshift64::new(seed),
            ulid_last_ms: 0,
            ulid_last_rand_hi: 0,
            ulid_last_rand_lo: 0,
        }
    }

    /// Draws the next 64 random bits.
    pub fn next_u64(&mut self) -> (r: u64)
        ensures
            r == xorshift_step(old(self)@.rng),
            final(self)@ == after_draw(old(self)@),
            r != 0,
    {
        self.rng.next_u64()
    }

    /// Makes the next ULID for millisecond `ms`; within one millisecond
    /// the ULIDs are ordered by their random bits counting up.
    pub fn next_ulid(&mut self, ms: u64) -> (u: Ulid)
        ensures
            (u@, final(self)@) == ulid_step(old(self)@, ms),
            ms < 0x1_0000_0000_0000 ==> (u@ >> 80u128) as u64 == ms,
            ms != old(self)@.last_ms ==> u@ & 0xFFFF_FFFF_FFFF_FFFF_FFFFu128 == (((xorshift_step(
                old(self)@.rng,
            ) & 0xFFFFu64) as u128) << 64u128) | (xorshift_step(xorshift_step(old(self)@.rng))
                as u128) && final(self)@.rng == xorshift_step(xorshift_step(old(self)@.rng)),
            ms == old(self)@.last_ms ==> (u@ & 0xFFFF_FFFF_FFFF_FFFF_FFFFu128) as int == (
            ulid_counter(old(self)@) + 1) % 0x1_0000_0000_0000_0000_0000 && final(self)@.rng == old(
                self,
            )@.rng,
    {
        let (hi, lo) = if ms == self.ulid_last_ms {
            let new_lo = self.ulid_last_rand_lo.wrapping_add(1);
            let carry: u16 = if new_lo == 0 { 1 } else { 0 };
            let new_hi = self.ulid_last_rand_hi.wrapping_add(carry);
            self.ulid_last_rand_lo = new_lo;
            self.ulid_last_rand_hi = new_hi;
            (new_hi, new_lo)
        } else {
            let r1 = self.rng.next_u64();
            let r2 = self.rng.next_u64();
            let hi = (r1 & 0xFFFF) as u16;
            self.ulid_last_ms = ms;
            self.ulid_last_rand_hi = hi;
            self.ulid_last_rand_lo = r2;
            (hi, r2)
        };
        let msb = (ms << 16) | (hi as u64);
        proof {
            if ms == old(self)@.last_ms {
                lemma_ulid_same_millisecond(old(self)@);
            } else {
                lemma_ulid_fresh_millisecond(old(self)@, ms);
            }
        }
        Ulid::from_halves(msb, lo)
    }
}

impl Ulid {
    /// Generates a new ULID with the current timestamp; ULIDs generated
    /// with one generator within the same millisecond are ordered.
    pub fn new(generator: &mut IdGenerator) -> (u: Ulid)
        ensures
            exists|ms: u64| (u@, final(generator)@) == ulid_step(old(generator)@, ms),
    {
        let ms = now_millis();
        generator.next_ulid(ms)
    }

    /// A ULID with the given timestamp and fresh random bits (16 from the
    /// first draw, 64 from the second); the monotonic state is untouched.
    pub fn from_timestamp_ms(ms: u64, generator: &mut IdGenerator) -> (u: Ulid)
        ensures
            ({
                let r1 = xorshift_step(old(generator)@.rng);
                let r2 = xorshift_step(r1);
                &&& u@ == ulid_compose(ms, (r1 & 0xFFFFu64) as u16, r2)
                &&& final(generator)@ == after_draw(after_draw(old(generator)@))
            }),
    {
        let r1 = generator.next_u64();
        let r2 = generator.next_u64();
        let hi = (r1 & 0xFFFF) as u16;
        Ulid::from_halves((ms << 16) | (hi as u64), r2)
    }
}

/// The value of a ULID made of a timestamp below 2^48 and 80 random bits,
/// as a number: timestamp, high bits and low bits side by side.
pub proof fn lemma_ulid_compose_value(ms: u64, hi: u16, lo: u64)
    requires
        ms < 0x1_0000_0000_0000,
    ensures
        ulid_compose(ms, hi, lo) as int == ms as int * 0x1_0000_0000_0000_0000_0000
            + hi as int * 0x1_0000_0000_0000_0000 + lo as int,
        (ulid_compose(ms, hi, lo) >> 80u128) as u64 == ms,
{
    assert(((((ms << 16u64) | (hi as u64)) as u128) << 64u128) | (lo as u128)
        == (ms as u128) * 0x1_0000_0000_0000_0000_0000u128 + (hi as u128)
            * 0x1_0000_0000_0000_0000u128 + (lo as u128)) by (bit_vector)
        requires
            ms < 0x1_0000_0000_0000u64,
    ;
    assert((((((ms << 16u64) | (hi as u64)) as u128) << 64u128) | (lo as u128)) >> 80u128
        == ms as u128) by (bit_vector)
        requires
            ms < 0x1_0000_0000_0000u64,
    ;
}

/// The low 80 bits of a ULID made of random bits `hi`, `lo` are those
/// bits, `hi` above `lo`.
proof fn lemma_ulid_compose_low_bits(ms: u64, hi: u16, lo: u64)
    ensures
        ulid_compose(ms, hi, lo) & 0xFFFF_FFFF_FFFF_FFFF_FFFFu128 == ((hi as u128) << 64u128)
            | (lo as u128),
{
    assert((((((ms << 16u64) | (hi as u64)) as u128) << 64u128) | (lo as u128))
        & 0xFFFF_FFFF_FFFF_FFFF_FFFFu128 == ((hi as u128) << 64u128) | (lo as u128))
        by (bit_vector);
}

/// In a millisecond other than that of the last ULID, a ULID carries the
/// millisecond above 80 fresh random bits: the low 16 bits of the
/// generator's next draw, then the draw after that; the random source
/// advances by those two draws, and the generator records the millisecond.
pub proof fn lemma_ulid_fresh_millisecond(g: GeneratorState, ms: u64)
    requires
        ms != g.last_ms,
    ensures
        ({
            let (u, g2) = ulid_step(g, ms);
            let r1 = xorshift_step(g.rng);
            let r2 = xorshift_step(r1);
            &&& ms < 0x1_0000_0000_0000 ==> (u >> 80u128) as u64 == ms
            &&& u & 0xFFFF_FFFF_FFFF_FFFF_FFFFu128 == (((r1 & 0xFFFFu64) as u128) << 64u128)
                | (r2 as u128)
            &&& g2.rng == r2
            &&& g2.last_ms == ms
        }),
{
    let r1 = xorshift_step(g.rng);
    let r2 = xorshift_step(r1);
    let hi = (r1 & 0xFFFFu64) as u16;
    lemma_ulid_compose_low_bits(ms, hi, r2);
    if ms < 0x1_0000_0000_0000 {
        lemma_ulid_compose_value(ms, hi, r2);
    }
    assert(((hi as u64) as u128) == ((r1 & 0xFFFFu64) as u128)) by (bit_vector)
        requires
            hi == (r1 & 0xFFFFu64) as u16,
    ;
}

/// In the millisecond of the last ULID, a ULID carries the millisecond above
/// the last ULID's 80 random bits plus one (from all ones back to zero), and
/// no random draw is made.
pub proof fn lemma_ulid_same_millisecond(g: GeneratorState)
    ensures
        ({
            let (u, g2) = ulid_step(g, g.last_ms);
            &&& g.last_ms < 0x1_0000_0000_0000 ==> (u >> 80u128) as u64 == g.last_ms
            &&& (u & 0xFFFF_FFFF_FFFF_FFFF_FFFFu128) as int == (ulid_counter(g) + 1)
                % 0x1_0000_0000_0000_0000_0000
            &&& g2.rng == g.rng
            &&& g2.last_ms == g.last_ms
        }),
{
    let (u, g2) = ulid_step(g, g.last_ms);
    lemma_step_counts_up(g, g.last_ms);
    lemma_ulid_compose_low_bits(g.last_ms, g2.last_rand_hi, g2.last_rand_lo);
    if g.last_ms < 0x1_0000_0000_0000 {
        lemma_ulid_compose_value(g.last_ms, g2.last_rand_hi, g2.last_rand_lo);
    }
    let hi = g2.last_rand_hi;
    let lo = g2.last_rand_lo;
    assert((((hi as u128) << 64u128) | (lo as u128)) as int == hi as int * 0x1_0000_0000_0000_0000
        + lo as int) by (bit_vector);
}

/// ULIDs are time-sortable: one with an earlier timestamp (both below
/// 2^48) is the smaller, whatever the random bits.
pub proof fn lemma_ulid_time_order(ms1: u64, hi1: u16, lo1: u64, ms2: u64, hi2: u16, lo2: u64)
    requires
        ms1 < ms2 < 0x1_0000_0000_0000,
    ensures
        ulid_compose(ms1, hi1, lo1) < ulid_compose(ms2, hi2, lo2),
{
    lemma_ulid_compose_value(ms1, hi1, lo1);
    lemma_ulid_compose_value(ms2, hi2, lo2);
}

/// ULIDs made one after the other by a generator increase, when the clock
/// does not go back and stays below 2^48 ms, except when the second is made
/// in the same millisecond after a ULID whose 80 random bits are all ones
/// (the count then wraps to zero).
pub proof fn lemma_ulid_monotonic(g: GeneratorState, ms1: u64, ms2: u64)
    requires
        ms1 <= ms2 < 0x1_0000_0000_0000,
        !(ms2 == ms1 && ulid_step(g, ms1).1.last_rand_hi == u16::MAX
            && ulid_step(g, ms1).1.last_rand_lo == u64::MAX),
    ensures
        ulid_step(g, ms1).0 < ulid_step(ulid_step(g, ms1).1, ms2).0,
{
    let (u1, g1) = ulid_step(g, ms1);
    let (u2, g2) = ulid_step(g1, ms2);
    lemma_ulid_compose_value(ms1, g1.last_rand_hi, g1.last_rand_lo);
    lemma_ulid_compose_value(ms2, g2.last_rand_hi, g2.last_rand_lo);
    assert(u1 == ulid_compose(ms1, g1.last_rand_hi, g1.last_rand_lo));
    assert(u2 == ulid_compose(ms2, g2.last_rand_hi, g2.last_rand_lo));
}

/// The ULIDs made by a generator in state `g` at the milliseconds `ms`,
/// one after the other.
pub open spec fn ulid_run(g: GeneratorState, ms: Seq<u64>) -> Seq<u128>
    decreases ms.len(),
{
    if ms.len() == 0 {
        Seq::<u128>::empty()
    } else {
        seq![ulid_step(g, ms[0]).0] + ulid_run(ulid_step(g, ms[0]).1, ms.drop_first())
    }
}

/// Whether, in such a run, some ULID is made in the millisecond of the one
/// before it after that one's 80 random bits were all ones.
pub open spec fn ulid_run_wraps(g: GeneratorState, ms: Seq<u64>) -> bool
    decreases ms.len(),
{
    if ms.len() < 2 {
        false
    } else {
        let g1 = ulid_step(g, ms[0]).1;
        (ms[1] == ms[0] && g1.last_rand_hi == u16::MAX && g1.last_rand_lo == u64::MAX)
            || ulid_run_wraps(g1, ms.drop_first())
    }
}

/// A run of ULIDs made by one generator while the clock does not go back
/// and stays below 2^48 ms is strictly increasing, so no two are equal,
/// unless the random count wraps within a millisecond.
pub proof fn lemma_ulid_run_increasing(g: GeneratorState, ms: Seq<u64>)
    requires
        forall|i: int, j: int| 0 <= i <= j < ms.len() ==> ms[i] <= ms[j],
        forall|i: int| 0 <= i < ms.len() ==> #[trigger] ms[i] < 0x1_0000_0000_0000,
        !ulid_run_wraps(g, ms),
    ensures
        ulid_run(g, ms).len() == ms.len(),
        forall|i: int, j: int|
            0 <= i < j < ms.len() ==> #[trigger] ulid_run(g, ms)[i] < #[trigger] ulid_run(g, ms)[j],
    decreases ms.len(),
{
    if ms.len() > 0 {
        let g1 = ulid_step(g, ms[0]).1;
        let rest = ms.drop_first();
        assert forall|i: int, j: int| 0 <= i <= j < rest.len() implies rest[i] <= rest[j] by {
            assert(rest[i] == ms[i + 1] && rest[j] == ms[j + 1]);
        }
        assert forall|i: int| 0 <= i < rest.len() implies #[trigger] rest[i] < 0x1_0000_0000_0000 by {
            assert(rest[i] == ms[i + 1]);
        }
        lemma_ulid_run_increasing(g1, rest);
        let r = ulid_run(g, ms);
        let rr = ulid_run(g1, rest);
        assert(r == seq![ulid_step(g, ms[0]).0] + rr);
        if rest.len() > 0 {
            assert(ms[0] <= ms[1]);
            lemma_ulid_monotonic(g, ms[0], ms[1]);
            assert(rr[0] == ulid_step(g1, rest[0]).0);
            assert forall|i: int, j: int| 0 <= i < j < ms.len() implies #[trigger] r[i]
                < #[trigger] r[j] by {
                assert(r[j] == rr[j - 1]);
                if i == 0 {
                    assert(r[0] < rr[0]);
                    if j - 1 > 0 {
                        assert(rr[0] < rr[j - 1]);
                    }
                } else {
                    assert(r[i] == rr[i - 1]);
                    assert(rr[i - 1] < rr[j - 1]);
                }
            }
        }
    }
}

/// The 80 random bits of the last ULID a state records, as a number.
pub open spec fn ulid_counter(g: GeneratorState) -> int {
    g.last_rand_hi as int * 0x1_0000_0000_0000_0000 + g.last_rand_lo as int
}

/// The state after the first `k` ULIDs of a run at the milliseconds `ms`.
pub open spec fn ulid_state_after(g: GeneratorState, ms: Seq<u64>, k: nat) -> GeneratorState
    decreases k,
{
    if k == 0 {
        g
    } else {
        ulid_step(ulid_state_after(g, ms, (k - 1) as nat), ms[k - 1]).1
    }
}

proof fn lemma_state_after_shift(g: GeneratorState, ms: Seq<u64>, k: nat)
    requires
        1 <= k <= ms.len(),
    ensures
        ulid_state_after(g, ms, k) == ulid_state_after(
            ulid_step(g, ms[0]).1,
            ms.drop_first(),
            (k - 1) as nat,
        ),
    decreases k,
{
    let g1 = ulid_step(g, ms[0]).1;
    if k == 1 {
        assert(ulid_state_after(g, ms, 0) == g);
        assert(ulid_state_after(g1, ms.drop_first(), 0) == g1);
    } else {
        lemma_state_after_shift(g, ms, (k - 1) as nat);
        assert(ms.drop_first()[k - 2] == ms[k - 1]);
        assert(ulid_state_after(g, ms, k) == ulid_step(
            ulid_state_after(g, ms, (k - 1) as nat),
            ms[k - 1],
        ).1);
        assert(ulid_state_after(g1, ms.drop_first(), (k - 1) as nat) == ulid_step(
            ulid_state_after(g1, ms.drop_first(), (k - 2) as nat),
            ms.drop_first()[k - 2],
        ).1);
    }
}

/// The `j`-th ULID of a run is the one made from the state after the first
/// `j`.
proof fn lemma_run_index(g: GeneratorState, ms: Seq<u64>, j: int)
    requires
        0 <= j < ms.len(),
    ensures
        ulid_run(g, ms).len() == ms.len(),
        ulid_run(g, ms)[j] == ulid_step(ulid_state_after(g, ms, j as nat), ms[j]).0,
    decreases ms.len(),
{
    lemma_run_len(g, ms);
    if j > 0 {
        let g1 = ulid_step(g, ms[0]).1;
        lemma_run_index(g1, ms.drop_first(), j - 1);
        lemma_state_after_shift(g, ms, j as nat);
        assert(ms.drop_first()[j - 1] == ms[j]);
    }
}

proof fn lemma_run_len(g: GeneratorState, ms: Seq<u64>)
    ensures
        ulid_run(g, ms).len() == ms.len(),
    decreases ms.len(),
{
    if ms.len() > 0 {
        lemma_run_len(ulid_step(g, ms[0]).1, ms.drop_first());
    }
}

/// In the millisecond of the last ULID, the 80 random bits count up by one,
/// from all ones to zero.
proof fn lemma_step_counts_up(g: GeneratorState, ms: u64)
    requires
        ms == g.last_ms,
    ensures
        ulid_counter(ulid_step(g, ms).1) == if ulid_counter(g) + 1 == 0x1_0000_0000_0000_0000_0000 {
            0
        } else {
            ulid_counter(g) + 1
        },
{
}

/// Over the ULIDs `i+1 ..= j` of a run, all in one millisecond, the random
/// count goes up by `j - i`, wrapping at most once.
proof fn lemma_counter_run(g: GeneratorState, ms: Seq<u64>, i: int, j: int)
    requires
        0 <= i <= j < ms.len(),
        j - i < 0x1_0000_0000_0000_0000_0000,
        forall|k: int| i <= k <= j ==> #[trigger] ms[k] == ms[i],
    ensures
        ({
            let c = ulid_counter(ulid_state_after(g, ms, (i + 1) as nat));
            let d = j - i;
            ulid_counter(ulid_state_after(g, ms, (j + 1) as nat)) == if c + d
                < 0x1_0000_0000_0000_0000_0000 {
                c + d
            } else {
                c + d - 0x1_0000_0000_0000_0000_0000
            }
        }),
    decreases j - i,
{
    if j > i {
        lemma_counter_run(g, ms, i, j - 1);
        let prev = ulid_state_after(g, ms, j as nat);
        assert(prev.last_ms == ms[j - 1]);
        assert(ms[j - 1] == ms[i] && ms[j] == ms[i]);
        lemma_step_counts_up(prev, ms[j]);
    }
}

/// The value of a ULID of a run: its millisecond above the random count of
/// the state it leaves.
proof fn lemma_run_value(g: GeneratorState, ms: Seq<u64>, j: int)
    requires
        0 <= j < ms.len(),
        ms[j] < 0x1_0000_0000_0000,
    ensures
        ulid_run(g, ms)[j] as int == ms[j] as int * 0x1_0000_0000_0000_0000_0000
            + ulid_counter(ulid_state_after(g, ms, (j + 1) as nat)),
        0 <= ulid_counter(ulid_state_after(g, ms, (j + 1) as nat)) < 0x1_0000_0000_0000_0000_0000,
{
    lemma_run_index(g, ms, j);
    let st = ulid_state_after(g, ms, j as nat);
    let nx = ulid_step(st, ms[j]).1;
    assert(ulid_state_after(g, ms, (j + 1) as nat) == nx);
    lemma_ulid_compose_value(ms[j], nx.last_rand_hi, nx.last_rand_lo);
}

/// No two ULIDs of a run made by one generator are equal, as long as the
/// clock does not go back, stays below 2^48 ms, and the run has at most
/// 2^80 ULIDs; this holds also where the random count wraps within a
/// millisecond.
pub proof fn lemma_ulid_run_distinct(g: GeneratorState, ms: Seq<u64>)
    requires
        forall|i: int, j: int| 0 <= i <= j < ms.len() ==> ms[i] <= ms[j],
        forall|i: int| 0 <= i < ms.len() ==> #[trigger] ms[i] < 0x1_0000_0000_0000,
        ms.len() <= 0x1_0000_0000_0000_0000_0000,
    ensures
        ulid_run(g, ms).len() == ms.len(),
        forall|i: int, j: int|
            0 <= i < j < ms.len() ==> #[trigger] ulid_run(g, ms)[i] != #[trigger] ulid_run(g, ms)[j],
{
    lemma_run_len(g, ms);
    assert forall|i: int, j: int| 0 <= i < j < ms.len() implies #[trigger] ulid_run(g, ms)[i]
        != #[trigger] ulid_run(g, ms)[j] by {
        lemma_run_value(g, ms, i);
        lemma_run_value(g, ms, j);
        assert(ms[i] <= ms[j]);
        if ms[i] == ms[j] {
            assert forall|k: int| i <= k <= j implies #[trigger] ms[k] == ms[i] by {
                assert(ms[i] <= ms[k] && ms[k] <= ms[j]);
            }
            lemma_counter_run(g, ms, i, j);
        }
    }
}

/// A ULID made at a millisecond below 2^48 carries that millisecond as its
/// timestamp.
pub proof fn lemma_ulid_step_timestamp(g: GeneratorState, ms: u64)
    requires
        ms < 0x1_0000_0000_0000,
    ensures
        (ulid_step(g, ms).0 >> 80u128) as u64 == ms,
{
    let (u, g1) = ulid_step(g, ms);
    lemma_ulid_compose_value(ms, g1.last_rand_hi, g1.last_rand_lo);
}

} // verus!
