//! Deterministic generation of bounded 256-bit values from a 32-byte seed.

pub mod range;
pub mod seed;
pub mod uint;
