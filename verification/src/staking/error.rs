//! Why a staking operation failed.

use crate::bank::{BankError, BankFault};
use crate::state::store::{StateError, StateFault};
use vstd::prelude::*;

verus! {

/// Why a staking operation failed.
#[derive(Debug, Clone, PartialEq, Eq)]
pub enum StakingError {
    /// The bond would be below the minimum.
    BelowMinimumBond {
        /// Offered.
        got: String,
        /// Required.
        min: String,
    },
    /// No bond exists for that operator.
    NoSuchBond,
    /// The operator already has a bond.
    AlreadyBonded,
    /// Unbonding more than is bonded.
    InsufficientBond {
        /// Requested.
        requested: String,
        /// Available.
        bonded: String,
    },
    /// The unbonding queue for this operator is full.
    TooManyUnbondingEntries,
    /// No more operators may bond.
    CandidateSetFull,
    /// Nothing has matured yet.
    NothingMatured,
    /// The active set would be empty.
    NoEligibleValidators,
    /// The evidence does not show equivocation.
    NotEquivocation,
    /// The offender has already been punished for this.
    AlreadyJailed,
    /// A zero-valued operation, or a sum that leaves its range.
    ZeroAmount,
    /// The bank refused.
    Bank(BankError),
    /// Corrupt state.
    State(StateError),
}

/// The mathematical view of a [`StakingError`].
pub enum StakingFault {
    BelowMinimumBond { got: Seq<char>, min: Seq<char> },
    NoSuchBond,
    AlreadyBonded,
    InsufficientBond { requested: Seq<char>, bonded: Seq<char> },
    TooManyUnbondingEntries,
    CandidateSetFull,
    NothingMatured,
    NoEligibleValidators,
    NotEquivocation,
    AlreadyJailed,
    ZeroAmount,
    Bank(BankFault),
    State(StateFault),
}

impl DeepView for StakingError {
    type V = StakingFault;

    open spec fn deep_view(&self) -> StakingFault {
        match *self {
            StakingError::BelowMinimumBond { got, min } =>
                StakingFault::BelowMinimumBond { got: got.deep_view(), min: min.deep_view() },
            StakingError::NoSuchBond => StakingFault::NoSuchBond,
            StakingError::AlreadyBonded => StakingFault::AlreadyBonded,
            StakingError::InsufficientBond { requested, bonded } =>
                StakingFault::InsufficientBond {
                    requested: requested.deep_view(),
                    bonded: bonded.deep_view(),
                },
            StakingError::TooManyUnbondingEntries => StakingFault::TooManyUnbondingEntries,
            StakingError::CandidateSetFull => StakingFault::CandidateSetFull,
            StakingError::NothingMatured => StakingFault::NothingMatured,
            StakingError::NoEligibleValidators => StakingFault::NoEligibleValidators,
            StakingError::NotEquivocation => StakingFault::NotEquivocation,
            StakingError::AlreadyJailed => StakingFault::AlreadyJailed,
            StakingError::ZeroAmount => StakingFault::ZeroAmount,
            StakingError::Bank(e) => StakingFault::Bank(e.deep_view()),
            StakingError::State(e) => StakingFault::State(e.deep_view()),
        }
    }
}

impl StakingFault {
    /// The sentence that describes this error.
    pub open spec fn text(self) -> Seq<char> {
        match self {
            StakingFault::BelowMinimumBond { got, min } =>
                "bond of "@ + got + " is below the minimum of "@ + min,
            StakingFault::NoSuchBond => "no bond for this operator"@,
            StakingFault::AlreadyBonded => "this operator already has a bond"@,
            StakingFault::InsufficientBond { requested, bonded } =>
                "cannot unbond "@ + requested + "; only "@ + bonded + " is bonded"@,
            StakingFault::TooManyUnbondingEntries =>
                "too many queued unbonding entries; wait for one to mature"@,
            StakingFault::CandidateSetFull => "the candidate set is full"@,
            StakingFault::NothingMatured => "no unbonding entry has matured yet"@,
            StakingFault::NoEligibleValidators => "no validator qualifies for the active set"@,
            StakingFault::NotEquivocation => "evidence does not prove equivocation"@,
            StakingFault::AlreadyJailed => "this operator is already jailed"@,
            StakingFault::ZeroAmount => "amount must be greater than zero"@,
            StakingFault::Bank(e) => e.text(),
            StakingFault::State(e) => e.text(),
        }
    }
}

impl StakingError {
    /// The sentence that describes this error.
    pub fn to_string(&self) -> (s: String)
        ensures
            s@ == self.deep_view().text(),
    {
        match self {
            StakingError::BelowMinimumBond { got, min } => {
                let mut s = String::from_str("bond of ");
                s.append(got.as_str());
                s.append(" is below the minimum of ");
                s.append(min.as_str());
                s
            },
            StakingError::NoSuchBond => String::from_str("no bond for this operator"),
            StakingError::AlreadyBonded => String::from_str("this operator already has a bond"),
            StakingError::InsufficientBond { requested, bonded } => {
                let mut s = String::from_str("cannot unbond ");
                s.append(requested.as_str());
                s.append("; only ");
                s.append(bonded.as_str());
                s.append(" is bonded");
                s
            },
            StakingError::TooManyUnbondingEntries => String::from_str(
                "too many queued unbonding entries; wait for one to mature",
            ),
            StakingError::CandidateSetFull => String::from_str("the candidate set is full"),
            StakingError::NothingMatured => String::from_str("no unbonding entry has matured yet"),
            StakingError::NoEligibleValidators => String::from_str(
                "no validator qualifies for the active set",
            ),
            StakingError::NotEquivocation => String::from_str(
                "evidence does not prove equivocation",
            ),
            StakingError::AlreadyJailed => String::from_str("this operator is already jailed"),
            StakingError::ZeroAmount => String::from_str("amount must be greater than zero"),
            StakingError::Bank(e) => e.to_string(),
            StakingError::State(e) => e.to_string(),
        }
    }
}


} // verus!
