//! The limits that staking works within.

use crate::primitives::amount::Amount;
use crate::primitives::UNBONDING_MS;
use vstd::prelude::*;

verus! {

/// Tunable limits.
#[derive(Debug, Clone, Copy, PartialEq, Eq)]
pub struct StakingParams {
    /// Smallest stake that may be bonded or hold a seat.
    pub min_bond: Amount,
    /// Most validators in the active set.
    pub max_validators: usize,
    /// Most operators that may hold a bond.
    pub max_candidates: usize,
    /// Most entries in one operator's unbonding queue.
    pub max_unbonding_entries: usize,
    /// How long stake stays slashable after unbonding begins, in milliseconds.
    pub unbonding_ms: u64,
    /// Ceiling on one validator's share of the power, in basis points. Zero, or the
    /// whole and more, is no ceiling.
    pub max_single_share_bps: u32,
}

impl Default for StakingParams {
    fn default() -> (p: Self)
        ensures
            p == (StakingParams {
                min_bond: Amount(10_000_000_000_000),
                max_validators: 100,
                max_candidates: 1_000,
                max_unbonding_entries: 16,
                unbonding_ms: UNBONDING_MS,
                max_single_share_bps: 1_000,
            }),
    {
        StakingParams {
            min_bond: Amount(10_000_000_000_000),
            max_validators: 100,
            max_candidates: 1_000,
            max_unbonding_entries: 16,
            unbonding_ms: UNBONDING_MS,
            max_single_share_bps: 1_000,
        }
    }
}

} // verus!
