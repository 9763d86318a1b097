//! Hashes, keys and addresses.
//!
//! Hashing is BLAKE3 and signatures are Ed25519 with strict verification; both
//! come from outside crates, and so does the bech32m text form of addresses.

pub mod hash;
pub mod address;
pub mod keys;
pub mod merkle;
pub mod rules;
