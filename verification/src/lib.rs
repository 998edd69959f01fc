//! Hashcash-style client puzzles: an issuer creates a challenge with a
//! difficulty, a solver searches for a counter whose digest meets it, and
//! either side can verify a solved challenge.

pub mod challenge;
pub mod counter;
pub mod difficulty;
pub mod digest;
pub mod encoding;
pub mod error;
pub mod issue;
pub mod render;
pub mod solve;
pub mod time;
pub mod verify;
pub mod wire;

pub use challenge::H;
pub use difficulty::u8_slice_clz;
pub use error::PowError;
pub use time::{Instant, TimeSpan};
