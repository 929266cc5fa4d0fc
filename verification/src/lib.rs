//! Identifier generation: ULID, UUIDv7, NanoID and Snowflake, with their
//! text and binary encodings.
//!
//! Randomness comes from a xorshift64 generator whose state is an explicit
//! value, held together with the ULID monotonic state in an
//! [`IdGenerator`]; wall-clock time is read through [`now_millis`].
pub mod bytes128;
pub mod clock;
pub mod decimal;
pub mod error;
pub mod generator;
pub mod nanoid;
pub mod rng;
pub mod snowflake;
pub mod snowflake_generator;
pub mod text;
pub mod ulid;
pub mod uuid7;

pub use clock::now_millis;
pub use error::{ParseIdError, ParseIdErrorKind};
pub use generator::{GeneratorState, IdGenerator};
pub use nanoid::{NanoId, NanoIdDraft, NANOID_DEFAULT_ALPHABET, NANOID_DEFAULT_LEN};
pub use rng::Xorshift64;
pub use snowflake::{Snowflake, SnowflakeStep, snowflake_next_step, DEFAULT_SNOWFLAKE_EPOCH};
pub use snowflake_generator::{SnowflakeAttempt, SnowflakeGenerator};
pub use ulid::{Ulid, crockford_decode_char};
pub use uuid7::{Uuid7, hex_val};
