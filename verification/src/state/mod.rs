//! Authenticated state.
//!
//! The whole ledger lives in one compact sparse Merkle tree ([`smt`]) whose root
//! is committed in every block header. A phone that holds a header checks a
//! balance, or the absence of one, against a proof from a server it does not
//! trust.

pub mod membership;
pub mod nodes;
pub mod rules;
pub mod shape;
pub mod smt;
pub mod sorted;
pub mod store;
