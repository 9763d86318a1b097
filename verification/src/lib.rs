//! AfroLink: the verified core of a payments chain.
//!
//! A phone that holds one trusted header checks everything else it is told: balances
//! and their absence, transactions and their receipts, an account's whole history. What
//! the modules here compute is stated over mathematical models and proved.
//!
//! * [`primitives`]: the canonical encoding, amounts, denominations, identifiers.
//! * [`crypto`]: hashing, keys, addresses, Merkle logs.
//! * [`state`]: the sparse Merkle tree that one root commits to, and its store.
//! * [`types`], [`alias`], [`pay`]: accounts, groups, transactions, names, requests.
//! * [`bank`], [`staking`], [`consensus`]: balances, bonds, validators and votes.
//! * [`chain`], [`light`], [`rpc`], [`chainstore`]: blocks, what a client verifies, how
//!   a node answers, what it keeps.
//! * [`witness`]: logs that give a returning wallet a starting point it can check.
//! * [`layout`], [`views`], [`sentences`]: the bytes, the view and the words of every
//!   record and error, as laws.

pub mod alias;
pub mod bank;
pub mod chain;
pub mod chainstore;
pub mod consensus;
pub mod crypto;
pub mod layout;
pub mod light;
pub mod pay;
pub mod primitives;
pub mod rpc;
pub mod sentences;
pub mod staking;
pub mod state;
pub mod types;
pub mod views;
pub mod witness;
