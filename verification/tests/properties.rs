use lib::{
    crockford_decode_char, hex_val, now_millis, snowflake_next_step, IdGenerator, NanoId,
    NanoIdDraft, ParseIdErrorKind, Snowflake, SnowflakeAttempt, SnowflakeGenerator, SnowflakeStep,
    Ulid, Uuid7, Xorshift64,
};

const SEED: u64 = 0x9E37_79B9_7F4A_7C15;

// -- random source --

#[test]
fn xorshift_rounds() {
    let mut g = Xorshift64::new(1);
    assert_eq!(g.next_u64(), 0x4082_2041);
    let mut z = Xorshift64::new(0);
    assert_eq!(z.next_u64(), 0x27dc_5c1b_2d04_284b);
}

#[test]
fn generator_draws_follow_xorshift() {
    let mut g = IdGenerator::new(SEED);
    assert_eq!(g.next_u64(), 0xdc1b_77ae_0bf3_4dad);
    assert_eq!(g.next_u64(), 0x64f0_eeb9_026e_6076);
}

#[test]
fn clock_reads_after_2020() {
    assert!(now_millis() > 1_577_836_800_000);
}

// -- ULID --

#[test]
fn ulid_from_timestamp_exact_text() {
    let mut g = IdGenerator::new(SEED);
    let u = Ulid::from_timestamp_ms(1_700_000_000_000, &mut g);
    assert_eq!(u.timestamp_ms(), 1_700_000_000_000);
    assert_eq!(u.to_string(), "01HF7YAT009PPP9W7EQ416WR3P");
}

#[test]
fn ulid_same_millisecond_counts_up() {
    let mut g = IdGenerator::new(SEED);
    let a = g.next_ulid(1_700_000_000_000);
    let b = g.next_ulid(1_700_000_000_000);
    let ab = a.to_bytes();
    let bb = b.to_bytes();
    assert_eq!(u128::from_be_bytes(bb), u128::from_be_bytes(ab) + 1);
    assert_eq!(b.timestamp_ms(), 1_700_000_000_000);
}

#[test]
fn ulid_new_millisecond_takes_fresh_bits() {
    let mut g = IdGenerator::new(SEED);
    let a = g.next_ulid(5);
    let b = g.next_ulid(6);
    assert!(b > a);
    assert_eq!(a.timestamp_ms(), 5);
    assert_eq!(b.timestamp_ms(), 6);
}

#[test]
fn ulid_parse_is_case_insensitive_with_aliases() {
    let u = Ulid::parse("01HF7YAT009PPP9W7EQ416WR3P").unwrap();
    assert_eq!(Ulid::parse("01hf7yat009ppp9w7eq416wr3p").unwrap(), u);
    assert_eq!(Ulid::parse("O1HF7YAToo9PPP9W7EQ4i6WR3P").unwrap(), u);
    assert_eq!(Ulid::parse("0LHF7YAT009PPP9W7EQ4L6WR3P").unwrap(), u);
}

#[test]
fn ulid_parse_errors() {
    assert_eq!(Ulid::parse("too_short").unwrap_err().kind, ParseIdErrorKind::UlidLength);
    assert_eq!(
        Ulid::parse("01HF7YAT009PPP9W7EQ416WR3U").unwrap_err().kind,
        ParseIdErrorKind::InvalidCrockfordChar
    );
    assert_eq!(
        Ulid::parse("!!!!!!!!!!!!!!!!!!!!!!!!!!").unwrap_err().message(),
        "invalid Crockford base32 character"
    );
    assert_eq!(Ulid::parse("").unwrap_err().message(), "ULID must be 26 characters");
}

#[test]
fn ulid_top_bits_beyond_128_are_dropped() {
    let max = Ulid::parse("7ZZZZZZZZZZZZZZZZZZZZZZZZZ").unwrap();
    assert_eq!(max.to_bytes(), [0xFF; 16]);
    assert_eq!(Ulid::parse("8ZZZZZZZZZZZZZZZZZZZZZZZZZ").unwrap(), Ulid::parse("0ZZZZZZZZZZZZZZZZZZZZZZZZZ").unwrap());
}

#[test]
fn ulid_bytes_roundtrip() {
    let bytes: [u8; 16] = [1, 2, 3, 4, 5, 6, 7, 8, 9, 10, 11, 12, 13, 14, 15, 16];
    let u = Ulid::from_bytes(bytes);
    assert_eq!(u.to_bytes(), bytes);
    assert_eq!(u.timestamp_ms(), 0x0102_0304_0506);
    let mut g = IdGenerator::new(SEED);
    let v = Ulid::new(&mut g);
    assert_eq!(Ulid::from_bytes(v.to_bytes()), v);
}

#[test]
fn ulid_text_order_is_value_order() {
    let mut g = IdGenerator::new(7);
    let ids: Vec<Ulid> = (0..50).map(|i| Ulid::from_timestamp_ms(1000 + (i % 7) as u64, &mut g)).collect();
    for a in &ids {
        for b in &ids {
            assert_eq!(a < b, a.to_string() < b.to_string());
        }
    }
}

#[test]
fn crockford_symbols() {
    assert_eq!(crockford_decode_char(b'Z'), Some(31));
    assert_eq!(crockford_decode_char(b'v'), Some(27));
    assert_eq!(crockford_decode_char(b'U'), None);
    assert_eq!(crockford_decode_char(b'l'), Some(1));
}

// -- UUIDv7 --

#[test]
fn uuid7_from_timestamp_exact_text() {
    let mut g = IdGenerator::new(SEED);
    let u = Uuid7::from_timestamp_ms(1_700_000_000_000, &mut g);
    assert_eq!(u.timestamp_ms(), 1_700_000_000_000);
    assert_eq!(u.to_string(), "018bcfe5-6800-7dad-a4f0-eeb9026e6076");
}

#[test]
fn uuid7_parse_forms() {
    let u = Uuid7::parse("018bcfe5-6800-7dad-a4f0-eeb9026e6076").unwrap();
    assert_eq!(Uuid7::parse("018BCFE5-6800-7DAD-A4F0-EEB9026E6076").unwrap(), u);
    assert_eq!(Uuid7::parse("018bcfe568007dada4f0eeb9026e6076----").unwrap(), u);
    assert_eq!(Uuid7::from_bytes(u.to_bytes()), u);
}

#[test]
fn uuid7_parse_errors() {
    assert_eq!(
        Uuid7::parse("018bcfe5-6800-7dad-a4f0-eeb9026e607").unwrap_err().kind,
        ParseIdErrorKind::UuidLength
    );
    assert_eq!(
        Uuid7::parse("018bcfe5-6800-7dad-a4f0-eeb9026e607g").unwrap_err().kind,
        ParseIdErrorKind::InvalidHexChar
    );
    assert_eq!(
        Uuid7::parse("0-8bcfe5-6800-7dad-a4f0-eeb9026e6076").unwrap_err().kind,
        ParseIdErrorKind::InvalidHexChar
    );
    assert_eq!(
        Uuid7::parse("018bcfe5680007dada4f0eeb9026e6076aa").unwrap_err().kind,
        ParseIdErrorKind::UuidLength
    );
    assert_eq!(
        Uuid7::parse("018bcfe5680007dada4f0eeb9026e6076aab").unwrap_err().kind,
        ParseIdErrorKind::UuidFormat
    );
    assert_eq!(
        Uuid7::parse("018bcfe5-6800-7dad-a4f0-eeb9026e----").unwrap_err().message(),
        "invalid UUID format"
    );
    assert_eq!(hex_val(b'F'), Some(15));
    assert_eq!(hex_val(b'g'), None);
}

// -- NanoID --

#[test]
fn nanoid_draft_picks_by_mask() {
    // alphabet of 3 symbols: mask 0b11; byte 0x03 and 0x07 are rejected
    let mut d = NanoIdDraft::new("abc", 4);
    d.absorb(0x0000_0000_0102_0703);
    assert!(d.is_complete());
    assert_eq!(d.finish().as_str(), "cbaa");
}

#[test]
fn nanoid_draft_stops_at_length() {
    let mut d = NanoIdDraft::new("a", 10);
    d.absorb(0);
    assert!(!d.is_complete());
    d.absorb(0);
    assert!(d.is_complete());
    assert_eq!(d.finish().as_str(), "aaaaaaaaaa");
}

#[test]
fn nanoid_parse_errors() {
    assert_eq!(NanoId::parse("").unwrap_err().kind, ParseIdErrorKind::EmptyNanoId);
    assert_eq!(NanoId::parse("").unwrap_err().message(), "NanoId cannot be empty");
    assert_eq!(NanoId::parse("xyz").unwrap().as_str(), "xyz");
    let n = NanoId::parse("abc-_9").unwrap();
    let r: &str = n.as_ref();
    assert_eq!(r, "abc-_9");
    assert_eq!(n.to_string(), "abc-_9");
}

#[test]
fn nanoid_non_ascii_alphabet_uses_its_characters() {
    // one character (U+00E9, two bytes in UTF-8): the NanoID is three of it
    let mut d = NanoIdDraft::new("\u{e9}", 3);
    d.absorb(0);
    assert!(d.is_complete());
    let n = d.finish();
    assert_eq!(n.as_str(), "\u{e9}\u{e9}\u{e9}");
    assert_eq!(n.as_str().chars().count(), 3);
    // alphabet of three characters of different widths; mask 0b11
    let mut d = NanoIdDraft::new("a\u{e9}\u{4e2d}", 4);
    d.absorb(0x0000_0000_0102_0703);
    let n = d.finish();
    assert_eq!(n.as_str(), "\u{4e2d}\u{e9}aa");
}

// -- Snowflake --

#[test]
fn snowflake_steps() {
    match snowflake_next_step(5, 0, 3) {
        SnowflakeStep::Issue { next_state, id } => {
            assert_eq!(next_state, 5 << 12);
            assert_eq!(id, (5 << 22) | (3 << 12));
        }
        SnowflakeStep::SequenceExhausted => panic!("expected an ID"),
    }
    match snowflake_next_step(5, 5 << 12, 3) {
        SnowflakeStep::Issue { next_state, id } => {
            assert_eq!(next_state, (5 << 12) | 1);
            assert_eq!(id, (5 << 22) | (3 << 12) | 1);
        }
        SnowflakeStep::SequenceExhausted => panic!("expected an ID"),
    }
    assert!(matches!(
        snowflake_next_step(5, (5 << 12) | 0xFFF, 3),
        SnowflakeStep::SequenceExhausted
    ));
    // state at time 0 with sequence 0: the first ID of millisecond 0 has sequence 1
    match snowflake_next_step(0, 0, 1) {
        SnowflakeStep::Issue { id, .. } => assert_eq!(Snowflake::from_value(id).sequence(), 1),
        SnowflakeStep::SequenceExhausted => panic!("expected an ID"),
    }
}

#[test]
fn snowflake_ids_increase_across_steps() {
    let mut state = 0u64;
    let mut last = 0u64;
    for now in [3u64, 3, 3, 4, 9, 9] {
        match snowflake_next_step(now, state, 17) {
            SnowflakeStep::Issue { next_state, id } => {
                assert!(id > last);
                assert_eq!(Snowflake::from_value(id).timestamp(), now);
                assert_eq!(Snowflake::from_value(id).machine_id(), 17);
                last = id;
                state = next_state;
            }
            SnowflakeStep::SequenceExhausted => panic!("expected an ID"),
        }
    }
}

#[test]
fn snowflake_clock_stepping_back_keeps_ids_increasing() {
    // the last ID was in millisecond 9; the clock now reads 4
    let state = (9u64 << 12) | 2;
    match snowflake_next_step(4, state, 17) {
        SnowflakeStep::Issue { next_state, id } => {
            assert_eq!(next_state, (9 << 12) | 3);
            assert_eq!(id, (9 << 22) | (17 << 12) | 3);
        }
        SnowflakeStep::SequenceExhausted => panic!("expected an ID"),
    }
    // the last millisecond is full and the clock lags: wait
    assert!(matches!(
        snowflake_next_step(4, (9 << 12) | 0xFFF, 17),
        SnowflakeStep::SequenceExhausted
    ));
}

#[test]
fn snowflake_future_epoch_saturates_to_zero() {
    // epoch u64::MAX: every reading is millisecond 0 since the epoch
    let gen = SnowflakeGenerator::with_epoch(5, u64::MAX);
    let a = match gen.try_next_id() {
        SnowflakeAttempt::Issued(id) => id,
        _ => panic!("a fresh generator issues at once"),
    };
    let b = match gen.try_next_id() {
        SnowflakeAttempt::Issued(id) => id,
        _ => panic!("the second ID fits in the same millisecond"),
    };
    assert_eq!(a.value(), 20481);
    assert_eq!(b.value(), 20482);
}

#[test]
fn snowflake_value_and_fields() {
    let sf = Snowflake::from_value(123_456_789);
    assert_eq!(sf.value(), 123_456_789);
    assert_eq!(Snowflake::from(77u64).value(), 77);
    let id = Snowflake::from_value((1234 << 22) | (1023 << 12) | 4095);
    assert_eq!(id.timestamp(), 1234);
    assert_eq!(id.machine_id(), 1023);
    assert_eq!(id.sequence(), 4095);
}

#[test]
fn snowflake_text() {
    assert_eq!(Snowflake::from_value(6_820_873_600_000_004_097).to_string(), "6820873600000004097");
    assert_eq!(Snowflake::from_value(0).to_string(), "0");
    assert_eq!(Snowflake::parse("+42").unwrap().value(), 42);
    assert_eq!(Snowflake::parse("18446744073709551615").unwrap().value(), u64::MAX);
    assert_eq!(Snowflake::parse("18446744073709551616").unwrap_err().kind, ParseIdErrorKind::InvalidSnowflake);
    assert!(Snowflake::parse("-1").is_err());
    assert!(Snowflake::parse("").is_err());
    assert!(Snowflake::parse("+").is_err());
    assert_eq!(Snowflake::parse("x").unwrap_err().message(), "invalid Snowflake ID");
}
