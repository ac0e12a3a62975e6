//! ChaCha20 stream cipher, verified.
//!
//! The cipher turns a 256-bit key, a 96-bit nonce and a 32-bit block counter
//! into a pseudorandom keystream, and combines that keystream with the input
//! by exclusive-or.  Applying the same operation twice with the same key,
//! nonce and starting counter recovers the original input.

pub mod chacha;
pub mod laws;
pub mod words;
