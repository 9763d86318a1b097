use afrolink::bank::BankError;
use afrolink::consensus::CommitError;
use afrolink::crypto::keys::CryptoError;
use afrolink::light::LightError;
use afrolink::pay::request::RequestError;
use afrolink::rpc::history::HistoryError;
use afrolink::rpc::query::QueryError;
use afrolink::rpc::server::SubmitError;
use afrolink::staking::error::StakingError;
use afrolink::state::store::StateError;
use afrolink::types::group::GroupError;
use afrolink::types::tx::TxError;
use afrolink::witness::error::WitnessError;

fn owned(s: &str) -> String {
    s.to_string()
}

#[test]
fn group_errors_have_sentences() {
    for (e, want) in [
        (
            GroupError::TooFewMembers(1),
            "a group needs at least 2 members, got 1",
        ),
        (GroupError::DuplicateMember, "duplicate member in group"),
        (
            GroupError::TreasurerCount(2),
            "a group must have exactly one treasurer, found 2",
        ),
        (
            GroupError::InvalidRotationOrder,
            "rotation order must list every member exactly once",
        ),
        (
            GroupError::InvalidQuorum {
                numerator: 3,
                denominator: 2,
            },
            "invalid quorum 3/2",
        ),
        (
            GroupError::NotAMember,
            "address is not a member of this group",
        ),
        (
            GroupError::ZeroContribution,
            "contribution amount must be greater than zero",
        ),
        (GroupError::InvalidName, "group name must be 1..=64 bytes"),
        (
            GroupError::TooManyMembers(101),
            "a group may hold at most 100 members, got 101",
        ),
        (
            GroupError::AlreadyContributed,
            "this member has already contributed for this cycle",
        ),
        (
            GroupError::WrongContributionAmount {
                expected: owned("5.0"),
                got: owned("4.0"),
            },
            "this group's contribution is 5.0, not 4.0",
        ),
        (
            GroupError::CycleNotDue,
            "the cycle is not due: not every member has paid and the period has not elapsed",
        ),
        (
            GroupError::EmptyPot,
            "there is nothing in the pot to pay out",
        ),
    ] {
        assert_eq!(e.to_string(), want);
    }
}

#[test]
fn transaction_errors_have_sentences() {
    for (e, want) in [
        (TxError::InvalidSignature, "invalid signature"),
        (
            TxError::SignatureCount(0),
            "a transaction must carry 1..=32 signatures, got 0",
        ),
        (
            TxError::UnsortedSignatures,
            "signatures must be sorted by public key and unique",
        ),
        (
            TxError::SponsorSignatureMismatch,
            "sponsor signatures must be present exactly when a fee payer is named",
        ),
        (
            TxError::SelfSponsored,
            "the fee payer must not be the sender; leave it unset instead",
        ),
        (
            TxError::WrongChain {
                signed: owned("a"),
                expected: owned("b"),
            },
            "wrong chain id: signed for a, this chain is b",
        ),
        (
            TxError::Expired {
                valid_until: 5,
                current: 6,
            },
            "transaction expired at height 5, current height is 6",
        ),
        (
            TxError::MessageCount(65),
            "transaction must carry 1..=64 messages, got 65",
        ),
        (TxError::MemoTooLong, "memo exceeds 256 bytes"),
        (
            TxError::ZeroAmount,
            "transfer amount must be greater than zero",
        ),
        (
            TxError::ZeroFee,
            "a transaction must offer a fee greater than zero",
        ),
    ] {
        assert_eq!(e.to_string(), want);
    }
    assert_eq!(
        TxError::Crypto(CryptoError::BadSignature).to_string(),
        CryptoError::BadSignature.to_string()
    );
    assert_ne!(
        CryptoError::BadSignature.to_string(),
        CryptoError::MalformedAddress.to_string()
    );
}

#[test]
fn query_errors_have_sentences() {
    for (e, want) in [
        (
            QueryError::NoSuchHeight(9),
            "height 9 is not available on this node",
        ),
        (QueryError::NoCommit(9), "no commit stored for height 9"),
        (
            QueryError::NoSuchTransaction(owned("ab")),
            "no transaction ab on this node",
        ),
        (
            QueryError::NotIndexed("receipts"),
            "this node does not maintain receipts",
        ),
        (
            QueryError::Backend(owned("disk")),
            "backend error: disk",
        ),
    ] {
        assert_eq!(e.to_string(), want);
    }
    for (e, want) in [
        (SubmitError::Rejected(owned("bad nonce")), "bad nonce"),
        (
            SubmitError::NotAccepting,
            "this node does not accept transactions",
        ),
        (SubmitError::Backend(owned("disk")), "backend error: disk"),
    ] {
        assert_eq!(e.to_string(), want);
    }
}

#[test]
fn history_errors_have_sentences() {
    for (e, want) in [
        (
            HistoryError::Finished,
            "the history walk is already at its end",
        ),
        (
            HistoryError::WrongTransaction {
                expected: owned("aa"),
                got: owned("bb"),
            },
            "expected transaction aa, server returned bb",
        ),
        (
            HistoryError::WrongHeight {
                expected: 3,
                got: 2,
            },
            "expected a transaction in block 3, got block 2",
        ),
        (
            HistoryError::BrokenChain,
            "receipt does not name this account: the history chain is broken",
        ),
    ] {
        assert_eq!(e.to_string(), want);
    }
    let inner = LightError::Commit(CommitError::NoQuorum { have: 2, total: 4 });
    assert_eq!(inner.to_string(), "voting power 2 of 4 is no quorum");
    assert_eq!(
        HistoryError::Verification(inner).to_string(),
        inner.to_string()
    );
}

#[test]
fn request_errors_have_sentences() {
    for (e, want) in [
        (
            RequestError::WrongScheme,
            "payment request must begin with 'afri:'",
        ),
        (
            RequestError::BadRecipient,
            "payment request names no valid recipient",
        ),
        (
            RequestError::BadParameter(owned("re\"f")),
            "malformed parameter \"re\\\"f\"",
        ),
        (
            RequestError::BadDenom,
            "payment request must name a valid denomination",
        ),
        (
            RequestError::BadAmount,
            "amount is not a valid decimal quantity",
        ),
        (RequestError::TextTooLong, "text field exceeds 128 bytes"),
        (
            RequestError::DuplicateParameter(owned("amount")),
            "parameter \"amount\" appears more than once",
        ),
    ] {
        assert_eq!(e.to_string(), want);
    }
}

#[test]
fn staking_errors_have_sentences() {
    let corrupt = StateError::Corrupt {
        key: owned("bond"),
        reason: owned("short"),
    };
    for (e, want) in [
        (
            StakingError::BelowMinimumBond {
                got: owned("1.0"),
                min: owned("2.0"),
            },
            "bond of 1.0 is below the minimum of 2.0",
        ),
        (StakingError::NoSuchBond, "no bond for this operator"),
        (
            StakingError::AlreadyBonded,
            "this operator already has a bond",
        ),
        (
            StakingError::InsufficientBond {
                requested: owned("9.0"),
                bonded: owned("3.0"),
            },
            "cannot unbond 9.0; only 3.0 is bonded",
        ),
        (
            StakingError::TooManyUnbondingEntries,
            "too many queued unbonding entries; wait for one to mature",
        ),
        (StakingError::CandidateSetFull, "the candidate set is full"),
        (
            StakingError::NothingMatured,
            "no unbonding entry has matured yet",
        ),
        (
            StakingError::NoEligibleValidators,
            "no validator qualifies for the active set",
        ),
        (
            StakingError::NotEquivocation,
            "evidence does not prove equivocation",
        ),
        (
            StakingError::AlreadyJailed,
            "this operator is already jailed",
        ),
        (StakingError::ZeroAmount, "amount must be greater than zero"),
        (
            StakingError::State(corrupt.clone()),
            "corrupt state at key bond: short",
        ),
        (
            StakingError::Bank(BankError::State(corrupt)),
            "corrupt state at key bond: short",
        ),
    ] {
        assert_eq!(e.to_string(), want);
    }
}

#[test]
fn witness_errors_have_sentences() {
    for (e, want) in [
        (
            WitnessError::UnknownWitness,
            "the wallet does not know this witness",
        ),
        (
            WitnessError::BadSignature,
            "witness signature did not verify",
        ),
        (
            WitnessError::LogMismatch,
            "signed head does not belong to the log it names",
        ),
        (
            WitnessError::WrongChain {
                got: owned("x"),
                expected: owned("y"),
            },
            "witness log is for chain x, expected y",
        ),
        (
            WitnessError::NonMonotonic { got: 4, last: 5 },
            "log entry at height 4 does not follow 5",
        ),
        (WitnessError::IndexOutOfRange, "no log entry at that index"),
        (
            WitnessError::SizeMismatch {
                got: 7,
                expected: 8,
            },
            "proof covers a log of 7 entries, expected 8",
        ),
        (
            WitnessError::BadInclusionProof,
            "inclusion proof does not verify against the signed root",
        ),
        (
            WitnessError::BadConsistencyProof,
            "consistency proof does not verify: the log no longer contains what the wallet saw",
        ),
        (
            WitnessError::SplitView { height: 12 },
            "witnesses disagree about height 12; refusing to choose between them",
        ),
        (
            WitnessError::NotCorroborated {
                witnesses: 1,
                countries: 1,
                need_witnesses: 2,
                need_countries: 3,
            },
            "only 1 witness(es) across 1 jurisdiction(s) agreed; need 2 across 3",
        ),
        (
            WitnessError::EmptyWitnessSet,
            "a witness set must contain at least one witness",
        ),
        (
            WitnessError::DuplicateWitness,
            "the same witness log appears twice in the set",
        ),
        (
            WitnessError::NotEquivocation,
            "these heads are not evidence of equivocation",
        ),
    ] {
        assert_eq!(e.to_string(), want);
    }
}
