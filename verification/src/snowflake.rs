//! Snowflake IDs: 64 bits, an unused sign bit, a 41-bit millisecond
//! timestamp (since a chosen epoch), a 10-bit machine ID and a 12-bit
//! sequence number within the millisecond.
use vstd::prelude::*;
use vstd::string::StringSliceAdditionalSpecFns;
use crate::decimal::{decimal_digits, parse_u64_decimal, u64_to_decimal, parse_u64};
use crate::error::{ParseIdError, ParseIdErrorKind};
use crate::text::byte_chars;
use vstd::utf8::encode_utf8;

verus! {

/// Default Snowflake epoch: 2020-01-01T00:00:00Z (1577836800000 ms since Unix epoch).
pub const DEFAULT_SNOWFLAKE_EPOCH: u64 = 1_577_836_800_000;

/// The ID with the given timestamp, machine ID and sequence number.
pub open spec fn snowflake_compose(ts: u64, machine_id: u16, seq: u64) -> u64 {
    (ts << 22u64) | ((machine_id as u64) << 12u64) | seq
}

/// What a generator does at millisecond `now` (since its epoch) when its
/// packed state (last timestamp above a 12-bit sequence) is `current`.
pub enum SnowflakeStep {
    /// Store `next_state` and hand out the ID `id`.
    Issue { next_state: u64, id: u64 },
    /// The 4096 sequence numbers of this millisecond are used up: wait for
    /// the next millisecond.
    SequenceExhausted,
}

/// The millisecond an ID is issued in: the clock's, unless the clock reads
/// at or before the millisecond of the last ID, in which case that one.
pub open spec fn snowflake_effective_ms(now: u64, current: u64) -> u64 {
    if now <= current >> 12u64 { current >> 12u64 } else { now }
}

/// When the clock reads a millisecond after that of the last ID, sequence
/// number 0 in the clock's millisecond. Otherwise (the same millisecond, or
/// a clock that stepped back) the next sequence number in the last ID's
/// millisecond, unless all 4096 are used, in which case the generator waits
/// for the clock to pass that millisecond; so IDs never decrease.
pub open spec fn snowflake_plan(now: u64, current: u64, machine_id: u16) -> SnowflakeStep {
    let last_ts = current >> 12u64;
    let seq = current & 0xFFFu64;
    if now <= last_ts {
        if seq + 1 > 0xFFF {
            SnowflakeStep::SequenceExhausted
        } else {
            SnowflakeStep::Issue {
                next_state: (last_ts << 12u64) | ((seq + 1) as u64),
                id: snowflake_compose(last_ts, machine_id, (seq + 1) as u64),
            }
        }
    } else {
        SnowflakeStep::Issue { next_state: now << 12u64, id: snowflake_compose(now, machine_id, 0) }
    }
}

/// Decides what a generator with machine ID `machine_id` does at
/// millisecond `now` (since its epoch) from its packed state `current`.
pub fn snowflake_next_step(now: u64, current: u64, machine_id: u16) -> (step: SnowflakeStep)
    ensures
        step == snowflake_plan(now, current, machine_id),
{
    let last_ts = current >> 12;
    let seq = current & 0xFFF;
    assert(current & 0xFFFu64 <= 0xFFF) by (bit_vector);
    if now <= last_ts {
        let new_seq = seq + 1;
        if new_seq > 0xFFF {
            return SnowflakeStep::SequenceExhausted;
        }
        let new_state = (last_ts << 12) | new_seq;
        let id = (last_ts << 22) | ((machine_id as u64) << 12) | new_seq;
        SnowflakeStep::Issue { next_state: new_state, id }
    } else {
        let new_state = now << 12;
        let id = (now << 22) | ((machine_id as u64) << 12);
        assert(id | 0u64 == id) by (bit_vector);
        SnowflakeStep::Issue { next_state: new_state, id }
    }
}

/// A generated Snowflake ID (64-bit).
///
/// Layout: 1 unused sign bit | 41-bit timestamp | 10-bit machine ID | 12-bit sequence.
#[derive(Clone, Copy, Debug, PartialEq, Eq, Structural, Hash, PartialOrd, Ord)]
pub struct Snowflake(u64);

impl View for Snowflake {
    type V = u64;

    closed spec fn view(&self) -> u64 {
        self.0
    }
}

impl Snowflake {
    /// Constructs a `Snowflake` from a raw `u64`.
    pub fn from_value(value: u64) -> (s: Snowflake)
        ensures
            s@ == value,
    {
        Snowflake(value)
    }

    /// Returns the raw 64-bit value.
    pub fn value(&self) -> (v: u64)
        ensures
            v == self@,
    {
        self.0
    }

    /// Extracts the timestamp component (milliseconds since the generator's epoch).
    pub fn timestamp(&self) -> (ts: u64)
        ensures
            ts == self@ >> 22u64,
    {
        self.0 >> 22
    }

    /// Extracts the machine ID component.
    pub fn machine_id(&self) -> (m: u16)
        ensures
            m == (self@ >> 12u64) & 0x3FFu64,
    {
        let v = self.0;
        assert((v >> 12u64) & 0x3FFu64 <= 0x3FF) by (bit_vector);
        ((self.0 >> 12) & 0x3FF) as u16
    }

    /// Extracts the sequence number component.
    pub fn sequence(&self) -> (s: u16)
        ensures
            s == self@ & 0xFFFu64,
    {
        let v = self.0;
        assert(v & 0xFFFu64 <= 0xFFF) by (bit_vector);
        (self.0 & 0xFFF) as u16
    }

    /// The decimal text of the raw value.
    pub fn to_string(&self) -> (s: String)
        ensures
            s@ == byte_chars(decimal_digits(self@ as nat)),
    {
        u64_to_decimal(self.0)
    }

    /// Parses a Snowflake from the decimal text of its raw value (an
    /// optional `+`, then digits, at most `u64::MAX`).
    pub fn parse(s: &str) -> (r: Result<Snowflake, ParseIdError>)
        ensures
            match parse_u64_decimal(s.spec_bytes()) {
                Some(v) => r matches Ok(sf) && sf@ == v,
                None => r == Err::<Snowflake, ParseIdError>(
                    ParseIdError { kind: ParseIdErrorKind::InvalidSnowflake },
                ),
            },
    {
        match parse_u64(s) {
            Some(v) => Ok(Snowflake(v)),
            None => Err(ParseIdError { kind: ParseIdErrorKind::InvalidSnowflake }),
        }
    }
}

impl From<u64> for Snowflake {
    fn from(value: u64) -> (s: Snowflake)
        ensures
            s@ == value,
    {
        Snowflake(value)
    }
}

impl vstd::std_specs::convert::FromSpecImpl<u64> for Snowflake {
    open spec fn obeys_from_spec() -> bool {
        true
    }

    closed spec fn from_spec(v: u64) -> Snowflake {
        Snowflake(v)
    }
}

impl std::str::FromStr for Snowflake {
    type Err = ParseIdError;

    fn from_str(s: &str) -> (r: Result<Snowflake, ParseIdError>)
        ensures
            match parse_u64_decimal(s.spec_bytes()) {
                Some(v) => r matches Ok(sf) && sf@ == v,
                None => r == Err::<Snowflake, ParseIdError>(
                    ParseIdError { kind: ParseIdErrorKind::InvalidSnowflake },
                ),
            },
    {
        Snowflake::parse(s)
    }
}

/// An ID composed of a timestamp below 2^41, a 10-bit machine ID and a
/// 12-bit sequence number is those three numbers side by side, and its
/// fields read back as them.
pub proof fn lemma_snowflake_compose(ts: u64, machine_id: u16, seq: u64)
    requires
        ts < 0x200_0000_0000,
        machine_id < 1024,
        seq <= 0xFFF,
    ensures
        snowflake_compose(ts, machine_id, seq) as int == ts as int * 0x40_0000
            + machine_id as int * 0x1000 + seq as int,
        snowflake_compose(ts, machine_id, seq) >> 22u64 == ts,
        (snowflake_compose(ts, machine_id, seq) >> 12u64) & 0x3FFu64 == machine_id as u64,
        snowflake_compose(ts, machine_id, seq) & 0xFFFu64 == seq,
        snowflake_compose(ts, machine_id, seq) < 0x8000_0000_0000_0000,
{
    let m = machine_id as u64;
    assert({
        let id = (ts << 22u64) | (m << 12u64) | seq;
        &&& id == ts * 0x40_0000 + m * 0x1000 + seq
        &&& id >> 22u64 == ts
        &&& (id >> 12u64) & 0x3FFu64 == m
        &&& id & 0xFFFu64 == seq
        &&& id < 0x8000_0000_0000_0000u64
    }) by (bit_vector)
        requires
            ts < 0x200_0000_0000u64,
            m < 1024,
            seq <= 0xFFF,
    ;
}

/// The state stored after issuing an ID holds the ID's millisecond (the
/// effective one) as its last timestamp and the ID's sequence number; a new
/// millisecond starts at sequence number 0.
pub proof fn lemma_snowflake_state(now: u64, current: u64, machine_id: u16)
    requires
        snowflake_effective_ms(now, current) < 0x200_0000_0000,
        machine_id < 1024,
    ensures
        snowflake_plan(now, current, machine_id) matches SnowflakeStep::Issue { next_state, id } ==> {
            let ts = snowflake_effective_ms(now, current);
            &&& next_state >> 12u64 == ts
            &&& next_state & 0xFFFu64 == id & 0xFFFu64
            &&& id == snowflake_compose(ts, machine_id, id & 0xFFFu64)
            &&& id & 0xFFFu64 <= 0xFFF
            &&& id >> 22u64 == ts
            &&& (id >> 12u64) & 0x3FFu64 == machine_id as u64
            &&& (now > current >> 12u64 ==> id & 0xFFFu64 == 0)
            &&& (now <= current >> 12u64 ==> id & 0xFFFu64 == (current & 0xFFFu64) + 1)
        },
{
    let seq = current & 0xFFFu64;
    let last_ts = current >> 12u64;
    assert(seq <= 0xFFF) by (bit_vector)
        requires
            seq == current & 0xFFFu64,
    ;
    if now <= last_ts {
        if seq + 1 <= 0xFFF {
            let s = (seq + 1) as u64;
            lemma_snowflake_compose(last_ts, machine_id, s);
            assert(((last_ts << 12u64) | s) >> 12u64 == last_ts
                && ((last_ts << 12u64) | s) & 0xFFFu64 == s) by (bit_vector)
                requires
                    last_ts < 0x200_0000_0000u64,
                    s <= 0xFFF,
            ;
        }
    } else {
        lemma_snowflake_compose(now, machine_id, 0);
        assert((now << 12u64) >> 12u64 == now && (now << 12u64) & 0xFFFu64 == 0) by (bit_vector)
            requires
                now < 0x200_0000_0000u64,
        ;
    }
}

/// IDs issued one after the other by a generator increase, whatever the
/// two clock readings (the second may lie before the first), as long as the
/// milliseconds stay below 2^41 since the epoch (the width of the field).
pub proof fn lemma_snowflake_monotonic(now1: u64, now2: u64, current: u64, machine_id: u16)
    requires
        snowflake_effective_ms(now1, current) < 0x200_0000_0000,
        now2 < 0x200_0000_0000,
        machine_id < 1024,
        snowflake_plan(now1, current, machine_id) is Issue,
        snowflake_plan(now2, snowflake_plan(now1, current, machine_id)->next_state, machine_id) is Issue,
    ensures
        snowflake_plan(now1, current, machine_id)->id < snowflake_plan(
            now2,
            snowflake_plan(now1, current, machine_id)->next_state,
            machine_id,
        )->id,
{
    lemma_snowflake_successor(now1, now2, current, machine_id);
}

/// Of two IDs issued one after the other by a generator (milliseconds below
/// 2^41 since the epoch): the second is in the same or a later millisecond;
/// in the same millisecond it is the first plus one, with the next sequence
/// number; after sequence number 4095 it is in a later millisecond with
/// sequence number 0.
pub proof fn lemma_snowflake_successor(now1: u64, now2: u64, current: u64, machine_id: u16)
    requires
        snowflake_effective_ms(now1, current) < 0x200_0000_0000,
        now2 < 0x200_0000_0000,
        machine_id < 1024,
        snowflake_plan(now1, current, machine_id) is Issue,
        snowflake_plan(now2, snowflake_plan(now1, current, machine_id)->next_state, machine_id) is Issue,
    ensures
        ({
            let id1 = snowflake_plan(now1, current, machine_id)->id;
            let id2 = snowflake_plan(
                now2,
                snowflake_plan(now1, current, machine_id)->next_state,
                machine_id,
            )->id;
            &&& id1 < id2
            &&& id1 >> 22u64 <= id2 >> 22u64
            &&& (id1 >> 22u64 == id2 >> 22u64 ==> id2 == id1 + 1 && id2 & 0xFFFu64 == (id1
                & 0xFFFu64) + 1)
            &&& (id1 & 0xFFFu64 == 0xFFF ==> id1 >> 22u64 < id2 >> 22u64 && id2 & 0xFFFu64 == 0)
        }),
{
    let s1 = snowflake_plan(now1, current, machine_id)->next_state;
    let id1 = snowflake_plan(now1, current, machine_id)->id;
    let id2 = snowflake_plan(now2, s1, machine_id)->id;
    let ts1 = snowflake_effective_ms(now1, current);
    lemma_snowflake_state(now1, current, machine_id);
    assert(s1 >> 12u64 == ts1);
    let ts2 = snowflake_effective_ms(now2, s1);
    assert(ts2 < 0x200_0000_0000);
    lemma_snowflake_state(now2, s1, machine_id);
    let q1 = id1 & 0xFFFu64;
    let q2 = id2 & 0xFFFu64;
    lemma_snowflake_compose(ts1, machine_id, q1);
    lemma_snowflake_compose(ts2, machine_id, q2);
    if now2 <= ts1 {
        assert(ts2 == ts1);
        assert(q2 == q1 + 1);
    } else {
        assert(ts2 > ts1);
        assert(q2 == 0);
    }
}

/// The text that [`Snowflake::to_string`] gives parses back, through
/// [`Snowflake::parse`], to the same value.
pub proof fn lemma_snowflake_string_roundtrip(v: u64)
    ensures
        parse_u64_decimal(encode_utf8(byte_chars(decimal_digits(v as nat)))) == Some(v),
{
    crate::decimal::lemma_decimal_string_roundtrip(v);
}

} // verus!
