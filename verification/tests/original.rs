use lib::{
    IdGenerator, NanoId, NanoIdDraft, Snowflake, SnowflakeAttempt, SnowflakeGenerator, Ulid,
    Uuid7, NANOID_DEFAULT_ALPHABET, NANOID_DEFAULT_LEN, now_millis,
};

fn generator() -> IdGenerator {
    IdGenerator::new(0x9E37_79B9_7F4A_7C15)
}

fn nanoid_with_alphabet(alphabet: &str, len: usize, g: &mut IdGenerator) -> NanoId {
    let mut draft = NanoIdDraft::new(alphabet, len);
    while !draft.is_complete() {
        draft.absorb(g.next_u64());
    }
    draft.finish()
}

fn nanoid_new(g: &mut IdGenerator) -> NanoId {
    nanoid_with_alphabet(NANOID_DEFAULT_ALPHABET, NANOID_DEFAULT_LEN, g)
}

fn next_id(gen: &SnowflakeGenerator) -> Snowflake {
    loop {
        match gen.try_next_id() {
            SnowflakeAttempt::Issued(id) => return id,
            SnowflakeAttempt::SequenceExhausted => std::hint::spin_loop(),
            SnowflakeAttempt::Contended => {}
        }
    }
}

// -- ULID tests --

#[test]
fn ulid_uniqueness() {
    let mut g = generator();
    let ids: Vec<Ulid> = (0..100).map(|_| Ulid::new(&mut g)).collect();
    for i in 0..ids.len() {
        for j in (i + 1)..ids.len() {
            assert_ne!(ids[i], ids[j], "ULIDs should be unique");
        }
    }
}

#[test]
fn ulid_monotonic_ordering() {
    let mut g = generator();
    let ids: Vec<Ulid> = (0..100).map(|_| Ulid::new(&mut g)).collect();
    for i in 1..ids.len() {
        assert!(ids[i] > ids[i - 1], "ULIDs should be monotonically ordered");
    }
}

#[test]
fn ulid_display_length() {
    let mut g = generator();
    let id = Ulid::new(&mut g);
    let s = id.to_string();
    assert_eq!(s.len(), 26, "ULID string should be 26 characters");
}

#[test]
fn ulid_fromstr_roundtrip() {
    let mut g = generator();
    let id = Ulid::new(&mut g);
    let s = id.to_string();
    let parsed: Ulid = s.parse().unwrap();
    assert_eq!(id, parsed);
}

#[test]
fn ulid_invalid_parse() {
    assert!("too_short".parse::<Ulid>().is_err());
    assert!("!!!!!!!!!!!!!!!!!!!!!!!!!!".parse::<Ulid>().is_err());
}

// -- UUIDv7 tests --

#[test]
fn uuid7_format() {
    let mut g = generator();
    let id = Uuid7::new(&mut g);
    let s = id.to_string();
    assert_eq!(s.len(), 36);
    assert_eq!(s.as_bytes()[8], b'-');
    assert_eq!(s.as_bytes()[13], b'-');
    assert_eq!(s.as_bytes()[18], b'-');
    assert_eq!(s.as_bytes()[23], b'-');
}

#[test]
fn uuid7_version_bits() {
    let mut g = generator();
    let id = Uuid7::new(&mut g);
    let s = id.to_string();
    assert_eq!(&s[14..15], "7");
}

#[test]
fn uuid7_variant_bits() {
    let mut g = generator();
    let id = Uuid7::new(&mut g);
    // Variant is the top 2 bits of the lower half (byte 8), should be 0b10
    let variant = (id.to_bytes()[8] >> 6) & 0b11;
    assert_eq!(variant, 0b10, "variant bits should be 0b10");
}

#[test]
fn uuid7_fromstr_roundtrip() {
    let mut g = generator();
    let id = Uuid7::new(&mut g);
    let s = id.to_string();
    let parsed: Uuid7 = s.parse().unwrap();
    assert_eq!(id, parsed);
}

#[test]
fn uuid7_uniqueness() {
    let mut g = generator();
    let ids: Vec<Uuid7> = (0..100).map(|_| Uuid7::new(&mut g)).collect();
    for i in 0..ids.len() {
        for j in (i + 1)..ids.len() {
            assert_ne!(ids[i], ids[j]);
        }
    }
}

// -- NanoID tests --

#[test]
fn nanoid_default_length() {
    let mut g = generator();
    let id = nanoid_new(&mut g);
    assert_eq!(id.as_str().len(), 21);
}

#[test]
fn nanoid_default_alphabet() {
    let mut g = generator();
    let id = nanoid_new(&mut g);
    let valid: &[u8] = NANOID_DEFAULT_ALPHABET.as_bytes();
    for c in id.as_str().bytes() {
        assert!(valid.contains(&c), "character '{}' not in default alphabet", c as char);
    }
}

#[test]
fn nanoid_custom_alphabet_and_length() {
    let mut g = generator();
    let id = nanoid_with_alphabet("abc", 10, &mut g);
    assert_eq!(id.as_str().len(), 10);
    for c in id.as_str().chars() {
        assert!("abc".contains(c), "character '{}' not in custom alphabet", c);
    }
}

#[test]
fn nanoid_fromstr_roundtrip() {
    let mut g = generator();
    let id = nanoid_new(&mut g);
    let s = id.to_string();
    let parsed: NanoId = s.parse().unwrap();
    assert_eq!(id, parsed);
}

// -- Snowflake tests --

#[test]
fn snowflake_ordering() {
    let gen = SnowflakeGenerator::new(1);
    let ids: Vec<Snowflake> = (0..100).map(|_| next_id(&gen)).collect();
    for i in 1..ids.len() {
        assert!(ids[i] > ids[i - 1], "Snowflake IDs should be monotonically increasing");
    }
}

#[test]
fn snowflake_machine_id_extraction() {
    let gen = SnowflakeGenerator::new(42);
    let id = next_id(&gen);
    assert_eq!(id.machine_id(), 42);
}

#[test]
fn snowflake_fromstr_roundtrip() {
    let gen = SnowflakeGenerator::new(7);
    let id = next_id(&gen);
    let s = id.to_string();
    let parsed: Snowflake = s.parse().unwrap();
    assert_eq!(id, parsed);
}

#[test]
fn snowflake_components() {
    let gen = SnowflakeGenerator::new(100);
    let id = next_id(&gen);
    assert_eq!(id.machine_id(), 100);
    assert!(id.timestamp() > 0);
    assert_eq!(id.sequence(), 0); // first ID in a new ms should have seq 0
}

#[test]
fn snowflake_custom_epoch() {
    let epoch = 1_700_000_000_000; // some custom epoch
    let gen = SnowflakeGenerator::with_epoch(1, epoch);
    let id = next_id(&gen);
    // Timestamp should be relative to custom epoch, so much smaller
    let ts = id.timestamp();
    assert!(ts < now_millis()); // sanity check: relative ts < absolute ts
}
