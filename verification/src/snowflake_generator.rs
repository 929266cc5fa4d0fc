//! A Snowflake generator shared between threads: its last timestamp and
//! sequence number live packed in one atomic word.
use vstd::prelude::*;
use std::sync::atomic::{AtomicU64, Ordering};
use crate::clock::now_millis;
use crate::snowflake::{
    DEFAULT_SNOWFLAKE_EPOCH, Snowflake, SnowflakeStep, snowflake_next_step, snowflake_plan,
};

verus! {

/// Whether a generator with machine ID `machine_id`, at millisecond `now`
/// since its epoch and in state `current`, hands out `id`.
pub open spec fn snowflake_issues(now: u64, current: u64, machine_id: u16, id: u64) -> bool {
    snowflake_plan(now, current, machine_id) matches SnowflakeStep::Issue { id: i, .. } && i == id
}

/// Whether a generator with machine ID `machine_id`, at millisecond `now`
/// since its epoch and in state `current`, has to wait.
pub open spec fn snowflake_waits(now: u64, current: u64, machine_id: u16) -> bool {
    snowflake_plan(now, current, machine_id) is SequenceExhausted
}

/// Milliseconds from `epoch` to the clock reading `t`; 0 when the reading
/// lies before the epoch.
pub open spec fn since_epoch(t: u64, epoch: u64) -> u64 {
    if t >= epoch { (t - epoch) as u64 } else { 0 }
}

/// An ID issued for the clock reading `t` (ms since the Unix epoch) by a
/// generator with epoch `epoch` carries as its timestamp the reading less
/// the epoch, in milliseconds, or the last ID's millisecond when the clock is
/// not past it; it carries the generator's machine ID (all below 2^41 ms).
pub proof fn lemma_snowflake_issue_timestamp(t: u64, epoch: u64, current: u64, machine_id: u16)
    requires
        machine_id < 1024,
        since_epoch(t, epoch) < 0x200_0000_0000,
        current >> 12u64 < 0x200_0000_0000,
    ensures
        snowflake_plan(since_epoch(t, epoch), current, machine_id) matches SnowflakeStep::Issue {
            id,
            ..
        } ==> {
            &&& id >> 22u64 == if t >= epoch && t - epoch > current >> 12u64 {
                (t - epoch) as u64
            } else {
                current >> 12u64
            }
            &&& (id >> 12u64) & 0x3FFu64 == machine_id as u64
        },
{
    crate::snowflake::lemma_snowflake_state(since_epoch(t, epoch), current, machine_id);
}

/// The outcome of one attempt to take the next Snowflake ID.
pub enum SnowflakeAttempt {
    /// The ID was taken.
    Issued(Snowflake),
    /// All sequence numbers of the last ID's millisecond are used and the
    /// clock has not passed it: try again once it has.
    SequenceExhausted,
    /// Another thread changed the state meanwhile: try again.
    Contended,
}

/// A Snowflake ID generator with configurable machine ID and epoch.
///
/// Produces 64-bit IDs: 41-bit timestamp + 10-bit machine ID + 12-bit sequence.
/// The timestamp is milliseconds since the configured epoch.
pub struct SnowflakeGenerator {
    machine_id: u16,
    epoch_ms: u64,
    /// Packed atomic state: upper 52 bits = last timestamp, lower 12 bits = sequence.
    state: AtomicU64,
}

impl View for SnowflakeGenerator {
    /// The machine ID and the epoch (ms since the Unix epoch).
    type V = (u16, u64);

    closed spec fn view(&self) -> (u16, u64) {
        (self.machine_id, self.epoch_ms)
    }
}

impl SnowflakeGenerator {
    #[verifier::type_invariant]
    spec fn machine_id_fits(&self) -> bool {
        self.machine_id < 1024
    }

    /// Creates a new Snowflake generator with the given machine ID, which
    /// must fit in 10 bits (0..1023), and the default epoch.
    pub fn new(machine_id: u16) -> (g: SnowflakeGenerator)
        requires
            machine_id < 1024,
        ensures
            g@ == (machine_id, DEFAULT_SNOWFLAKE_EPOCH),
    {
        Self::with_epoch(machine_id, DEFAULT_SNOWFLAKE_EPOCH)
    }

    /// Creates a new Snowflake generator with a custom epoch (milliseconds
    /// since Unix epoch); the machine ID must fit in 10 bits (0..1023).
    pub fn with_epoch(machine_id: u16, epoch_ms: u64) -> (g: SnowflakeGenerator)
        requires
            machine_id < 1024,
        ensures
            g@ == (machine_id, epoch_ms),
    {
        SnowflakeGenerator { machine_id, epoch_ms, state: AtomicU64::new(0) }
    }

    /// The machine ID (below 1024) put into every ID.
    pub fn machine_id(&self) -> (m: u16)
        ensures
            m == self@.0,
            m < 1024,
    {
        proof {
            use_type_invariant(self);
        }
        self.machine_id
    }

    /// One attempt at the next ID: reads the clock `t` and the state, decides
    /// by [`snowflake_plan`] at millisecond `t` less the epoch (0 before the
    /// epoch), and stores the new state if no other thread changed it
    /// meanwhile.
    pub fn try_next_id(&self) -> (a: SnowflakeAttempt)
        ensures
            match a {
                SnowflakeAttempt::Issued(sf) => exists|t: u64, current: u64|
                    #[trigger] snowflake_issues(since_epoch(t, self@.1), current, self@.0, sf@),
                SnowflakeAttempt::SequenceExhausted => exists|t: u64, current: u64|
                    #[trigger] snowflake_waits(since_epoch(t, self@.1), current, self@.0),
                SnowflakeAttempt::Contended => exists|t: u64, current: u64|
                    (#[trigger] snowflake_plan(since_epoch(t, self@.1), current, self@.0)) is Issue,
            },
    {
        let t = now_millis();
        let attempt = self.try_next_id_at(t);
        proof {
            match attempt {
                SnowflakeAttempt::Issued(sf) => {
                    let current = choose|current: u64|
                        #[trigger] snowflake_issues(since_epoch(t, self@.1), current, self@.0, sf@);
                    assert(snowflake_issues(since_epoch(t, self@.1), current, self@.0, sf@));
                },
                SnowflakeAttempt::SequenceExhausted => {
                    let current = choose|current: u64|
                        #[trigger] snowflake_waits(since_epoch(t, self@.1), current, self@.0);
                    assert(snowflake_waits(since_epoch(t, self@.1), current, self@.0));
                },
                SnowflakeAttempt::Contended => {
                    let current = choose|current: u64|
                        (#[trigger] snowflake_plan(since_epoch(t, self@.1), current, self@.0)) is Issue;
                    assert(snowflake_plan(since_epoch(t, self@.1), current, self@.0) is Issue);
                },
            }
        }
        attempt
    }

    /// One attempt at the next ID for the clock reading `clock_ms` (ms since
    /// the Unix epoch): reads the state, decides by [`snowflake_plan`] at
    /// `clock_ms` less the epoch (0 before the epoch), and stores the new
    /// state if no other thread changed it meanwhile.
    pub fn try_next_id_at(&self, clock_ms: u64) -> (a: SnowflakeAttempt)
        ensures
            match a {
                SnowflakeAttempt::Issued(sf) => exists|current: u64|
                    #[trigger] snowflake_issues(since_epoch(clock_ms, self@.1), current, self@.0, sf@),
                SnowflakeAttempt::SequenceExhausted => exists|current: u64|
                    #[trigger] snowflake_waits(since_epoch(clock_ms, self@.1), current, self@.0),
                SnowflakeAttempt::Contended => exists|current: u64|
                    (#[trigger] snowflake_plan(since_epoch(clock_ms, self@.1), current, self@.0)) is Issue,
            },
    {
        let t = clock_ms;
        let now = t.saturating_sub(self.epoch_ms);
        assert(now == since_epoch(t, self@.1));
        let current = self.state.load(Ordering::Relaxed);
        match snowflake_next_step(now, current, self.machine_id) {
            SnowflakeStep::SequenceExhausted => {
                assert(snowflake_waits(since_epoch(t, self@.1), current, self@.0));
                SnowflakeAttempt::SequenceExhausted
            },
            SnowflakeStep::Issue { next_state, id } => {
                match self.state.compare_exchange(
                    current,
                    next_state,
                    Ordering::Relaxed,
                    Ordering::Relaxed,
                ) {
                    Ok(_) => {
                        let sf = Snowflake::from_value(id);
                        assert(snowflake_issues(since_epoch(t, self@.1), current, self@.0, sf@));
                        let attempt = SnowflakeAttempt::Issued(sf);
                        assert(attempt matches SnowflakeAttempt::Issued(x) && x == sf);
                        attempt
                    },
                    Err(_) => {
                        assert(snowflake_plan(since_epoch(t, self@.1), current, self@.0) is Issue);
                        SnowflakeAttempt::Contended
                    },
                }
            },
        }
    }
}

} // verus!
