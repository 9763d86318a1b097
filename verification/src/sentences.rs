//! The sentence of every error.
//!
//! An error is shown to a person, so what it says is part of what an operation answers:
//! which of its figures stands where, and in which words.

use crate::bank::BankFault;
use crate::chainstore::StoreFault;
use crate::consensus::CommitError;
use crate::crypto::keys::CryptoError;
use crate::light::LightError;
use crate::pay::request::RequestFault;
use crate::primitives::codec::CodecFault;
use crate::primitives::error::Fault;
use crate::primitives::text;
use crate::rpc::history::HistoryFault;
use crate::rpc::query::QueryFault;
use crate::rpc::server::SubmitError;
use crate::staking::error::StakingFault;
use crate::state::store::StateFault;
use crate::types::account::AuthorityError;
use crate::types::group::GroupError;
use crate::types::tx::TxFault;
use crate::witness::error::WitnessFault;
use vstd::prelude::*;

verus! {

/// What a bank fault says, for each kind of it.
pub proof fn law_what_a_bank_fault_says(it: BankFault)
    ensures
        it matches BankFault::InsufficientBalance ==> it.text() == "insufficient balance"@,
        it matches BankFault::Overflow ==> it.text() == "amount out of range"@,
        it matches BankFault::SupplyTooSmall ==> it.text() ==
            "less is in circulation than would be destroyed"@,
        it matches BankFault::State(e) ==> it.text() == e.text(),
{
}

/// What a store fault says, for each kind of it.
pub proof fn law_what_a_store_fault_says(it: StoreFault)
    ensures
        it matches StoreFault::Database(reason) ==> it.text() == "database: "@ + reason,
        it matches StoreFault::Corrupt { what, reason } ==> it.text() ==
            "corrupt record at "@ + what + ": "@ + reason,
        it matches StoreFault::NoGenesis ==> it.text() == "store has no genesis"@,
        it matches StoreFault::MissingBlock(height) ==> it.text() ==
            "block "@ + text::decimal(height as nat)
            + " is missing from an otherwise complete chain"@,
        it matches StoreFault::Genesis(reason) ==> it.text() == reason,
        it matches StoreFault::StateDivergence { height, computed, expected } ==> it.text() ==
            "replay diverged at height "@ + text::decimal(height as nat) + ": computed "@
            + computed + ", header says "@ + expected,
{
}

/// What a commit error says, for each kind of it.
pub proof fn law_what_a_commit_error_says(it: CommitError)
    ensures
        it matches CommitError::WrongVote ==> it.text() ==
            "a vote is not a precommit for this block"@,
        it matches CommitError::UnknownValidator ==> it.text() ==
            "a vote is by somebody outside the validator set"@,
        it matches CommitError::RepeatedVote ==> it.text() == "a validator's vote appears twice"@,
        it matches CommitError::BadSignature ==> it.text() == "a vote's signature does not verify"@,
        it matches CommitError::NoQuorum { have, total } ==> it.text() ==
            "voting power "@ + text::decimal(have as nat) + " of "@ + text::decimal(total as nat)
            + " is no quorum"@,
{
}

/// What a crypto error says, for each kind of it.
pub proof fn law_what_a_crypto_error_says(it: CryptoError)
    ensures
        it matches CryptoError::BadSignature ==> it.text() == "signature does not verify"@,
        it matches CryptoError::MalformedAddress ==> it.text() == "malformed address"@,
{
}

/// What a light error says, for each kind of it.
pub proof fn law_what_a_light_error_says(it: LightError)
    ensures
        it matches LightError::HeaderMismatch ==> it.text() ==
            "the commit or the proof is for another block"@,
        it matches LightError::BadProof ==> it.text() ==
            "the proof does not reconstruct the committed root"@,
        it matches LightError::WrongBlock ==> it.text() ==
            "the header is not that of the named block"@,
        it matches LightError::MalformedValue ==> it.text() == "the proved value does not decode"@,
        it matches LightError::Commit(e) ==> it.text() == e.text(),
{
}

/// What a request fault says, for each kind of it.
pub proof fn law_what_a_request_fault_says(it: RequestFault)
    ensures
        it matches RequestFault::WrongScheme ==> it.text() ==
            "payment request must begin with 'afri:'"@,
        it matches RequestFault::BadRecipient ==> it.text() ==
            "payment request names no valid recipient"@,
        it matches RequestFault::BadParameter(key) ==> it.text() ==
            "malformed parameter "@ + text::debug_form(key),
        it matches RequestFault::BadDenom ==> it.text() ==
            "payment request must name a valid denomination"@,
        it matches RequestFault::BadAmount ==> it.text() ==
            "amount is not a valid decimal quantity"@,
        it matches RequestFault::TextTooLong ==> it.text() == "text field exceeds 128 bytes"@,
        it matches RequestFault::DuplicateParameter(key) ==> it.text() ==
            "parameter "@ + text::debug_form(key) + " appears more than once"@,
{
}

/// What a codec fault says, for each kind of it.
pub proof fn law_what_a_codec_fault_says(it: CodecFault)
    ensures
        it matches CodecFault::UnexpectedEof { wanted, left } ==> it.text() ==
            "unexpected end of input: wanted "@ + text::decimal(wanted) + " more byte(s), "@
            + text::decimal(left) + " left"@,
        it matches CodecFault::LengthTooLarge { len } ==> it.text() ==
            "length prefix "@ + text::decimal(len) + " exceeds maximum 16777216"@,
        it matches CodecFault::UnknownDiscriminant { tag, what } ==> it.text() ==
            "unknown discriminant "@ + text::decimal(tag as nat) + " for "@ + what,
        it matches CodecFault::TrailingBytes { left } ==> it.text() ==
            text::decimal(left) + " trailing byte(s) after value"@,
        it matches CodecFault::Invalid(reason) ==> it.text() == "invalid value: "@ + reason,
{
}

/// What a fault says, for each kind of it.
pub proof fn law_what_a_fault_says(it: Fault)
    ensures
        it matches Fault::Codec(e) ==> it.text() == e.text(),
        it matches Fault::InvalidDenom { denom, reason } ==> it.text() ==
            "invalid denom "@ + text::debug_form(denom) + ": "@ + reason,
        it matches Fault::InvalidChainId { id, reason } ==> it.text() ==
            "invalid chain id "@ + text::debug_form(id) + ": "@ + reason,
        it matches Fault::Invalid { what } ==> it.text() == "invalid "@ + what,
        it matches Fault::Overflow { op } ==> it.text() == "arithmetic overflow in "@ + op,
{
}

/// What a history fault says, for each kind of it.
pub proof fn law_what_a_history_fault_says(it: HistoryFault)
    ensures
        it matches HistoryFault::Finished ==> it.text() ==
            "the history walk is already at its end"@,
        it matches HistoryFault::WrongTransaction { expected, got } ==> it.text() ==
            "expected transaction "@ + expected + ", server returned "@ + got,
        it matches HistoryFault::WrongHeight { expected, got } ==> it.text() ==
            "expected a transaction in block "@ + text::decimal(expected as nat) + ", got block "@
            + text::decimal(got as nat),
        it matches HistoryFault::BrokenChain ==> it.text() ==
            "receipt does not name this account: the history chain is broken"@,
        it matches HistoryFault::Verification(e) ==> it.text() == e.text(),
{
}

/// What a query fault says, for each kind of it.
pub proof fn law_what_a_query_fault_says(it: QueryFault)
    ensures
        it matches QueryFault::NoSuchHeight(height) ==> it.text() ==
            "height "@ + text::decimal(height as nat) + " is not available on this node"@,
        it matches QueryFault::NoCommit(height) ==> it.text() ==
            "no commit stored for height "@ + text::decimal(height as nat),
        it matches QueryFault::NoSuchTransaction(id) ==> it.text() ==
            "no transaction "@ + id + " on this node"@,
        it matches QueryFault::NotIndexed(what) ==> it.text() ==
            "this node does not maintain "@ + what,
        it matches QueryFault::Backend(reason) ==> it.text() == "backend error: "@ + reason,
{
}

/// What a submit error says, for each kind of it.
pub proof fn law_what_a_submit_error_says(it: SubmitError)
    ensures
        it matches SubmitError::Rejected(reason) ==> it.text() == reason@,
        it matches SubmitError::NotAccepting ==> it.text() ==
            "this node does not accept transactions"@,
        it matches SubmitError::Backend(reason) ==> it.text() == "backend error: "@ + reason@,
{
}

/// What a staking fault says, for each kind of it.
pub proof fn law_what_a_staking_fault_says(it: StakingFault)
    ensures
        it matches StakingFault::BelowMinimumBond { got, min } ==> it.text() ==
            "bond of "@ + got + " is below the minimum of "@ + min,
        it matches StakingFault::NoSuchBond ==> it.text() == "no bond for this operator"@,
        it matches StakingFault::AlreadyBonded ==> it.text() == "this operator already has a bond"@,
        it matches StakingFault::InsufficientBond { requested, bonded } ==> it.text() ==
            "cannot unbond "@ + requested + "; only "@ + bonded + " is bonded"@,
        it matches StakingFault::TooManyUnbondingEntries ==> it.text() ==
            "too many queued unbonding entries; wait for one to mature"@,
        it matches StakingFault::CandidateSetFull ==> it.text() == "the candidate set is full"@,
        it matches StakingFault::NothingMatured ==> it.text() ==
            "no unbonding entry has matured yet"@,
        it matches StakingFault::NoEligibleValidators ==> it.text() ==
            "no validator qualifies for the active set"@,
        it matches StakingFault::NotEquivocation ==> it.text() ==
            "evidence does not prove equivocation"@,
        it matches StakingFault::AlreadyJailed ==> it.text() == "this operator is already jailed"@,
        it matches StakingFault::ZeroAmount ==> it.text() == "amount must be greater than zero"@,
        it matches StakingFault::Bank(e) ==> it.text() == e.text(),
        it matches StakingFault::State(e) ==> it.text() == e.text(),
{
}

/// What a state fault says, for each kind of it.
pub proof fn law_what_a_state_fault_says(it: StateFault)
    ensures
        it matches StateFault::Corrupt { key, reason } ==> it.text() ==
            "corrupt state at key "@ + key + ": "@ + reason,
{
}

/// What an authority error says, for each kind of it.
pub proof fn law_what_an_authority_error_says(it: AuthorityError)
    ensures
        it matches AuthorityError::NoSigners ==> it.text() ==
            "a signer list must name at least one signer"@,
        it matches AuthorityError::TooManySigners(n) ==> it.text() ==
            "a signer list may name at most 32 signers, got "@ + text::decimal(n as nat),
        it matches AuthorityError::UnsortedOrRepeatedSigners ==> it.text() ==
            "signers must be sorted by public key and unique"@,
        it matches AuthorityError::ZeroWeight ==> it.text() ==
            "a signer's weight must be greater than zero"@,
        it matches AuthorityError::ZeroQuorum ==> it.text() ==
            "a quorum must be greater than zero"@,
        it matches AuthorityError::UnreachableQuorum { quorum, total } ==> it.text() ==
            "quorum "@ + text::decimal(quorum as nat) + " exceeds the total signer weight "@
            + text::decimal(total as nat),
{
}

/// What a group error says, for each kind of it.
pub proof fn law_what_a_group_error_says(it: GroupError)
    ensures
        it matches GroupError::TooFewMembers(n) ==> it.text() ==
            "a group needs at least 2 members, got "@ + text::decimal(n as nat),
        it matches GroupError::DuplicateMember ==> it.text() == "duplicate member in group"@,
        it matches GroupError::TreasurerCount(n) ==> it.text() ==
            "a group must have exactly one treasurer, found "@ + text::decimal(n as nat),
        it matches GroupError::InvalidRotationOrder ==> it.text() ==
            "rotation order must list every member exactly once"@,
        it matches GroupError::InvalidQuorum { numerator, denominator } ==> it.text() ==
            "invalid quorum "@ + text::decimal(numerator as nat) + "/"@
            + text::decimal(denominator as nat),
        it matches GroupError::NotAMember ==> it.text() == "address is not a member of this group"@,
        it matches GroupError::ZeroContribution ==> it.text() ==
            "contribution amount must be greater than zero"@,
        it matches GroupError::InvalidName ==> it.text() == "group name must be 1..=64 bytes"@,
        it matches GroupError::TooManyMembers(n) ==> it.text() ==
            "a group may hold at most 100 members, got "@ + text::decimal(n as nat),
        it matches GroupError::AlreadyContributed ==> it.text() ==
            "this member has already contributed for this cycle"@,
        it matches GroupError::WrongContributionAmount { expected, got } ==> it.text() ==
            "this group's contribution is "@ + expected@ + ", not "@ + got@,
        it matches GroupError::CycleNotDue ==> it.text() ==
            "the cycle is not due: not every member has paid and the period has not elapsed"@,
        it matches GroupError::EmptyPot ==> it.text() == "there is nothing in the pot to pay out"@,
{
}

/// What a tx fault says, for each kind of it.
pub proof fn law_what_a_tx_fault_says(it: TxFault)
    ensures
        it matches TxFault::InvalidSignature ==> it.text() == "invalid signature"@,
        it matches TxFault::SignatureCount(n) ==> it.text() ==
            "a transaction must carry 1..=32 signatures, got "@ + text::decimal(n as nat),
        it matches TxFault::UnsortedSignatures ==> it.text() ==
            "signatures must be sorted by public key and unique"@,
        it matches TxFault::SponsorSignatureMismatch ==> it.text() ==
            "sponsor signatures must be present exactly when a fee payer is named"@,
        it matches TxFault::SelfSponsored ==> it.text() ==
            "the fee payer must not be the sender; leave it unset instead"@,
        it matches TxFault::WrongChain { signed, expected } ==> it.text() ==
            "wrong chain id: signed for "@ + signed + ", this chain is "@ + expected,
        it matches TxFault::Expired { valid_until, current } ==> it.text() ==
            "transaction expired at height "@ + text::decimal(valid_until as nat)
            + ", current height is "@ + text::decimal(current as nat),
        it matches TxFault::MessageCount(n) ==> it.text() ==
            "transaction must carry 1..=64 messages, got "@ + text::decimal(n as nat),
        it matches TxFault::MemoTooLong ==> it.text() == "memo exceeds 256 bytes"@,
        it matches TxFault::ZeroAmount ==> it.text() ==
            "transfer amount must be greater than zero"@,
        it matches TxFault::ZeroFee ==> it.text() ==
            "a transaction must offer a fee greater than zero"@,
        it matches TxFault::Crypto(e) ==> it.text() == e.text(),
{
}

/// What a witness fault says, for each kind of it.
pub proof fn law_what_a_witness_fault_says(it: WitnessFault)
    ensures
        it matches WitnessFault::UnknownWitness ==> it.text() ==
            "the wallet does not know this witness"@,
        it matches WitnessFault::BadSignature ==> it.text() == "witness signature did not verify"@,
        it matches WitnessFault::LogMismatch ==> it.text() ==
            "signed head does not belong to the log it names"@,
        it matches WitnessFault::WrongChain { got, expected } ==> it.text() ==
            "witness log is for chain "@ + got + ", expected "@ + expected,
        it matches WitnessFault::NonMonotonic { got, last } ==> it.text() ==
            "log entry at height "@ + text::decimal(got as nat) + " does not follow "@
            + text::decimal(last as nat),
        it matches WitnessFault::IndexOutOfRange ==> it.text() == "no log entry at that index"@,
        it matches WitnessFault::SizeMismatch { got, expected } ==> it.text() ==
            "proof covers a log of "@ + text::decimal(got as nat) + " entries, expected "@
            + text::decimal(expected as nat),
        it matches WitnessFault::BadInclusionProof ==> it.text() ==
            "inclusion proof does not verify against the signed root"@,
        it matches WitnessFault::BadConsistencyProof ==> it.text() ==
            "consistency proof does not verify: the log no longer contains what the wallet saw"@,
        it matches WitnessFault::SplitView { height } ==> it.text() ==
            "witnesses disagree about height "@ + text::decimal(height as nat)
            + "; refusing to choose between them"@,
        it matches WitnessFault::NotCorroborated {
            witnesses,
            countries,
            need_witnesses,
            need_countries,
        } ==> it.text() ==
            "only "@ + text::decimal(witnesses as nat) + " witness(es) across "@
            + text::decimal(countries as nat) + " jurisdiction(s) agreed; need "@
            + text::decimal(need_witnesses as nat) + " across "@
            + text::decimal(need_countries as nat),
        it matches WitnessFault::EmptyWitnessSet ==> it.text() ==
            "a witness set must contain at least one witness"@,
        it matches WitnessFault::DuplicateWitness ==> it.text() ==
            "the same witness log appears twice in the set"@,
        it matches WitnessFault::NotEquivocation ==> it.text() ==
            "these heads are not evidence of equivocation"@,
{
}

} // verus!
