//! Witness logs: how a wallet gets a starting point it can check rather than one
//! it is simply told.
//!
//! A witness keeps an append-only [`log`] of what it saw on the chain, publishes
//! signed [`head`]s, and can be made to prove that an observation is in a tree and
//! that the tree a wallet saw last time is still a prefix of the one it shows now.
//! A wallet [`audit`]s those claims, and adopts a checkpoint only where several
//! witnesses in several jurisdictions agree ([`policy`]).
//!
//! Witnesses observe; they never cause. Nothing here can halt the chain, reorganise
//! it, censor a transaction or admit a block.

pub mod audit;
pub mod error;
pub mod head;
pub mod log;
pub mod policy;
pub mod rules;
