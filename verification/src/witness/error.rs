//! Why a witness's claim was not accepted.

use crate::primitives::text;
use vstd::prelude::*;

verus! {

/// Why a witness's claim was not accepted. Every failure leaves the wallet exactly where it was.
#[derive(Debug, Clone, PartialEq, Eq)]
pub enum WitnessError {
    /// The head was signed by a key this wallet does not know.
    UnknownWitness,
    /// A signature did not verify.
    BadSignature,
    /// A head's log identifier does not match the key or the log it claims.
    LogMismatch,
    /// The witness observes a different network.
    WrongChain {
        /// Chain the witness named.
        got: String,
        /// Chain the wallet follows.
        expected: String,
    },
    /// An entry went backwards in height or in time.
    NonMonotonic {
        /// Height offered.
        got: u64,
        /// Height already recorded.
        last: u64,
    },
    /// No entry at that index.
    IndexOutOfRange,
    /// A proof was built against a different tree than the head commits to.
    SizeMismatch {
        /// Size the proof covers.
        got: u64,
        /// Size expected.
        expected: u64,
    },
    /// An inclusion proof did not reconstruct the head's root.
    BadInclusionProof,
    /// A consistency proof did not reconcile the two roots: the witness rewrote or dropped history
    /// the wallet had already seen.
    BadConsistencyProof,
    /// Two witnesses reported different blocks at one height.
    SplitView {
        /// The disputed height.
        height: u64,
    },
    /// Not enough independent agreement to adopt a checkpoint.
    NotCorroborated {
        /// Best agreement reached, by witness count.
        witnesses: usize,
        /// Best agreement reached, by jurisdiction count.
        countries: usize,
        /// Witnesses the policy required.
        need_witnesses: usize,
        /// Jurisdictions the policy required.
        need_countries: usize,
    },
    /// A wallet was built with no witnesses.
    EmptyWitnessSet,
    /// One operator was listed twice, which would let it corroborate itself.
    DuplicateWitness,
    /// The two heads offered as proof of equivocation are consistent.
    NotEquivocation,
}

/// The mathematical view of a [`WitnessError`].
pub enum WitnessFault {
    UnknownWitness,
    BadSignature,
    LogMismatch,
    WrongChain { got: Seq<char>, expected: Seq<char> },
    NonMonotonic { got: u64, last: u64 },
    IndexOutOfRange,
    SizeMismatch { got: u64, expected: u64 },
    BadInclusionProof,
    BadConsistencyProof,
    SplitView { height: u64 },
    NotCorroborated {
        witnesses: usize,
        countries: usize,
        need_witnesses: usize,
        need_countries: usize,
    },
    EmptyWitnessSet,
    DuplicateWitness,
    NotEquivocation,
}

impl DeepView for WitnessError {
    type V = WitnessFault;

    open spec fn deep_view(&self) -> WitnessFault {
        match *self {
            WitnessError::UnknownWitness => WitnessFault::UnknownWitness,
            WitnessError::BadSignature => WitnessFault::BadSignature,
            WitnessError::LogMismatch => WitnessFault::LogMismatch,
            WitnessError::WrongChain { got, expected } =>
                WitnessFault::WrongChain { got: got.deep_view(), expected: expected.deep_view() },
            WitnessError::NonMonotonic { got, last } =>
                WitnessFault::NonMonotonic { got: got.deep_view(), last: last.deep_view() },
            WitnessError::IndexOutOfRange => WitnessFault::IndexOutOfRange,
            WitnessError::SizeMismatch { got, expected } =>
                WitnessFault::SizeMismatch { got: got.deep_view(), expected: expected.deep_view() },
            WitnessError::BadInclusionProof => WitnessFault::BadInclusionProof,
            WitnessError::BadConsistencyProof => WitnessFault::BadConsistencyProof,
            WitnessError::SplitView { height } =>
                WitnessFault::SplitView { height: height.deep_view() },
            WitnessError::NotCorroborated {
                witnesses,
                countries,
                need_witnesses,
                need_countries,
            } => WitnessFault::NotCorroborated {
                witnesses: witnesses.deep_view(),
                countries: countries.deep_view(),
                need_witnesses: need_witnesses.deep_view(),
                need_countries: need_countries.deep_view(),
            },
            WitnessError::EmptyWitnessSet => WitnessFault::EmptyWitnessSet,
            WitnessError::DuplicateWitness => WitnessFault::DuplicateWitness,
            WitnessError::NotEquivocation => WitnessFault::NotEquivocation,
        }
    }
}

impl WitnessFault {
    /// The sentence that describes this error.
    pub open spec fn text(self) -> Seq<char> {
        match self {
            WitnessFault::UnknownWitness => "the wallet does not know this witness"@,
            WitnessFault::BadSignature => "witness signature did not verify"@,
            WitnessFault::LogMismatch => "signed head does not belong to the log it names"@,
            WitnessFault::WrongChain { got, expected } =>
                "witness log is for chain "@ + got + ", expected "@ + expected,
            WitnessFault::NonMonotonic { got, last } =>
                "log entry at height "@ + text::decimal(got as nat) + " does not follow "@
                    + text::decimal(last as nat),
            WitnessFault::IndexOutOfRange => "no log entry at that index"@,
            WitnessFault::SizeMismatch { got, expected } =>
                "proof covers a log of "@ + text::decimal(got as nat) + " entries, expected "@
                    + text::decimal(expected as nat),
            WitnessFault::BadInclusionProof =>
                "inclusion proof does not verify against the signed root"@,
            WitnessFault::BadConsistencyProof =>
                "consistency proof does not verify: the log no longer contains what the wallet saw"@,
            WitnessFault::SplitView { height } =>
                "witnesses disagree about height "@ + text::decimal(height as nat)
                    + "; refusing to choose between them"@,
            WitnessFault::NotCorroborated {
                witnesses,
                countries,
                need_witnesses,
                need_countries,
            } =>
                "only "@ + text::decimal(witnesses as nat) + " witness(es) across "@
                    + text::decimal(countries as nat) + " jurisdiction(s) agreed; need "@
                    + text::decimal(need_witnesses as nat) + " across "@
                    + text::decimal(need_countries as nat),
            WitnessFault::EmptyWitnessSet => "a witness set must contain at least one witness"@,
            WitnessFault::DuplicateWitness => "the same witness log appears twice in the set"@,
            WitnessFault::NotEquivocation => "these heads are not evidence of equivocation"@,
        }
    }
}

impl WitnessError {
    /// The sentence that describes this error.
    pub fn to_string(&self) -> (s: String)
        ensures
            s@ == self.deep_view().text(),
    {
        match self {
            WitnessError::UnknownWitness => String::from_str(
                "the wallet does not know this witness",
            ),
            WitnessError::BadSignature => String::from_str("witness signature did not verify"),
            WitnessError::LogMismatch => String::from_str(
                "signed head does not belong to the log it names",
            ),
            WitnessError::WrongChain { got, expected } => {
                let mut s = String::from_str("witness log is for chain ");
                s.append(got.as_str());
                s.append(", expected ");
                s.append(expected.as_str());
                s
            },
            WitnessError::NonMonotonic { got, last } => {
                let mut s = String::from_str("log entry at height ");
                s.append(text::decimal_text(*got as u128).as_str());
                s.append(" does not follow ");
                s.append(text::decimal_text(*last as u128).as_str());
                s
            },
            WitnessError::IndexOutOfRange => String::from_str("no log entry at that index"),
            WitnessError::SizeMismatch { got, expected } => {
                let mut s = String::from_str("proof covers a log of ");
                s.append(text::decimal_text(*got as u128).as_str());
                s.append(" entries, expected ");
                s.append(text::decimal_text(*expected as u128).as_str());
                s
            },
            WitnessError::BadInclusionProof => String::from_str(
                "inclusion proof does not verify against the signed root",
            ),
            WitnessError::BadConsistencyProof => String::from_str(
                "consistency proof does not verify: the log no longer contains what the wallet saw",
            ),
            WitnessError::SplitView { height } => {
                let mut s = String::from_str("witnesses disagree about height ");
                s.append(text::decimal_text(*height as u128).as_str());
                s.append("; refusing to choose between them");
                s
            },
            WitnessError::NotCorroborated {
                witnesses,
                countries,
                need_witnesses,
                need_countries,
            } => {
                let mut s = String::from_str("only ");
                s.append(text::decimal_text(*witnesses as u128).as_str());
                s.append(" witness(es) across ");
                s.append(text::decimal_text(*countries as u128).as_str());
                s.append(" jurisdiction(s) agreed; need ");
                s.append(text::decimal_text(*need_witnesses as u128).as_str());
                s.append(" across ");
                s.append(text::decimal_text(*need_countries as u128).as_str());
                s
            },
            WitnessError::EmptyWitnessSet => String::from_str(
                "a witness set must contain at least one witness",
            ),
            WitnessError::DuplicateWitness => String::from_str(
                "the same witness log appears twice in the set",
            ),
            WitnessError::NotEquivocation => String::from_str(
                "these heads are not evidence of equivocation",
            ),
        }
    }
}

/// The view of the result of a check.
pub open spec fn audited(r: Result<(), WitnessError>) -> Option<WitnessFault> {
    match r {
        Ok(()) => None,
        Err(e) => Some(e.deep_view()),
    }
}

} // verus!
