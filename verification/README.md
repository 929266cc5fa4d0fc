# id_gen (Verus)

Identifier generation — ULID, UUIDv7, NanoID and Snowflake — with text and
byte encodings, written in Verus and verified against its contracts.

Layout:

- `src/` — the verified library (crate `lib`).
  - `rng.rs`: the xorshift64 generator; `generator.rs`: the per-thread
    generator state and monotonic ULID generation.
  - `ulid.rs`, `uuid7.rs`, `nanoid.rs`, `snowflake.rs`,
    `snowflake_generator.rs`: the ID types, their encoders, parsers and
    laws (round trips, ordering, field layout).
  - `bytes128.rs`, `decimal.rs`, `text.rs`, `clock.rs`, `error.rs`:
    shared pieces; the calls into `std` that are trusted sit in `clock.rs`,
    `text.rs`, `decimal.rs` and `nanoid.rs`, each with its contract.
- `tests/` — the test suite.
- `app/` — per-thread conveniences (thread-local generators, the waiting
  loops of NanoID and Snowflake generation, `Display` wrappers).
