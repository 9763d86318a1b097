//! Core primitives that every other module builds on.
//!
//! Everything in here is consensus-critical: two nodes that disagree about how
//! an [`Amount`] is encoded fork the chain. The rules are therefore boring and
//! explicit:
//!
//! * integers are fixed-width little-endian;
//! * variable-length data carries a `u32` length prefix;
//! * there is exactly one valid encoding of any value ([`codec`]);
//! * all arithmetic on balances is checked ([`Amount`]).

pub mod amount;
pub mod codec;
pub mod country;
pub mod denom;
pub mod error;
pub mod forms;
pub mod ids;
pub mod order;
pub mod text;
pub mod wire;

use vstd::prelude::*;

verus! {

/// How long stake stays slashable after a validator begins exiting: 21 days, in
/// milliseconds.
pub const UNBONDING_MS: u64 = 21 * 24 * 60 * 60 * 1_000;

} // verus!
