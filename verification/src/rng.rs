//! The xorshift64 pseudo-random generator that feeds every identifier.
use vstd::prelude::*;

verus! {

/// The state a generator starts from when it is seeded with zero, the one
/// state from which xorshift64 would never move.
pub const ZERO_SEED_REPLACEMENT: u64 = 0xDEAD_BEEF_CAFE_BABE;

/// One xorshift64 round (shifts 13, 7, 17); its result is both the next
/// state and the next output.
pub open spec fn xorshift_step(x: u64) -> u64 {
    let a = x ^ (x << 13u64);
    let b = a ^ (a >> 7u64);
    b ^ (b << 17u64)
}

/// The state that seeding with `seed` produces.
pub open spec fn seeded_state(seed: u64) -> u64 {
    if seed == 0 { ZERO_SEED_REPLACEMENT } else { seed }
}

/// A xorshift64 round maps every non-zero state to a non-zero state, so a
/// generator never reaches the state in which it would stay forever.
pub proof fn lemma_xorshift_step_nonzero(x: u64)
    requires
        x != 0,
    ensures
        xorshift_step(x) != 0,
{
    assert(x != 0 ==> xorshift_step(x) != 0) by (bit_vector);
}

/// A xorshift64 pseudo-random generator. Its state is never zero.
pub struct Xorshift64 {
    state: u64,
}

impl View for Xorshift64 {
    type V = u64;

    closed spec fn view(&self) -> u64 {
        self.state
    }
}

impl Xorshift64 {
    #[verifier::type_invariant]
    spec fn state_nonzero(&self) -> bool {
        self.state != 0
    }

    /// Seeds a generator; a zero seed is replaced by a fixed non-zero state.
    pub fn new(seed: u64) -> (g: Self)
        ensures
            g@ == seeded_state(seed),
            g@ != 0,
    {
        let state = if seed == 0 { ZERO_SEED_REPLACEMENT } else { seed };
        Xorshift64 { state }
    }

    /// Advances the generator by one round and returns the new state.
    pub fn next_u64(&mut self) -> (r: u64)
        ensures
            r == xorshift_step(old(self)@),
            final(self)@ == r,
            r != 0,
    {
        proof {
            use_type_invariant(&*self);
            lemma_xorshift_step_nonzero(self.state);
        }
        let mut x = self.state;
        x ^= x << 13;
        x ^= x >> 7;
        x ^= x << 17;
        self.state = x;
        x
    }
}

} // verus!
