//! Transactions, messages and signing.
//!
//! The signed bytes commit to the chain, the sender's sequence number, the expiry,
//! the fee, the messages and the memo, so a transaction cannot be replayed on
//! another chain, twice, or long after it was meant. They are hashed in a domain of
//! their own, so a transaction signature can never be presented as a vote.
//!
//! [`Transaction::verify_stateless`] establishes that every signature is genuine.
//! Whether the signers may act for the sender is another question, answered by
//! [`Account::authorises`](crate::types::account::Account::authorises).

use crate::alias::{ContactCommitment, Username};
use crate::consensus::{Equivocation, EquivocationView};
use crate::crypto::address::Address;
use crate::crypto::hash::{clash_free, digest, hash, Domain, Hash32, Preimage};
use crate::crypto::keys::{
    signature_of, signed_by, verifying_key_of, CryptoError, PublicKey, SecretKey, Signature,
};
use crate::pay::reference::PaymentReference;
use crate::primitives::amount::Amount;
use crate::primitives::codec::{
    decode_exact, fault, law_encoding_is_injective, outcome, parse_exact, Canonical, CodecError,
    CodecFault, Decode, Encode, Parsed, Reader,
};
use crate::primitives::country::CountryCode;
use crate::primitives::denom::Denom;
use crate::primitives::ids::{ChainId, Height};
use crate::primitives::order::{
    bytes_less, lemma_lex_irreflexive, lemma_lex_total, lemma_lex_transitive, lex_less,
};
use crate::primitives::text;
use crate::primitives::wire;
use crate::types::account::{
    key_views, AccountFlag, SignerList, SignersView,
};
use crate::types::group::{
    Contribution, ContributionView, FoundingMember, PayoutPolicy, PolicyView, Quorum,
};
use vstd::prelude::*;
use vstd::utf8::encode_utf8;

verus! {

/// The fields of [`Message::Transfer`], as they follow each other on the wire.
type TransferTerms = (Address, (Denom, (Amount, Option<PaymentReference>)));

/// The fields of [`Message::CreateGroup`], as they follow each other on the wire.
type GroupTerms = (String, (Vec<FoundingMember>, (Contribution, (PayoutPolicy, Quorum))));

/// Maximum bytes in a transaction memo.
pub const MAX_MEMO_LEN: usize = 256;

/// Maximum messages in one transaction.
pub const MAX_MESSAGES: usize = 64;

/// Maximum signatures on one transaction: the most a signer list can require, and
/// a bound on the elliptic-curve work one transaction can buy from a validator.
pub const MAX_SIGNATURES: usize = 32;

/// Why a transaction was rejected.
#[derive(Debug, Clone, PartialEq, Eq)]
pub enum TxError {
    /// A signature did not verify against the key that presented it.
    InvalidSignature,
    /// No signatures at all, or more than [`MAX_SIGNATURES`].
    SignatureCount(usize),
    /// Signatures out of order, or one key signing twice.
    UnsortedSignatures,
    /// Sponsor signatures present without a sponsor, or missing with one.
    SponsorSignatureMismatch,
    /// A fee payer that is the sender: a redundant spelling of an ordinary fee.
    SelfSponsored,
    /// The transaction was signed for a different network.
    WrongChain {
        /// Chain the transaction was signed for.
        signed: String,
        /// Chain evaluating it.
        expected: String,
    },
    /// The transaction expired before inclusion.
    Expired {
        /// Last height at which it was valid.
        valid_until: u64,
        /// Current chain height.
        current: u64,
    },
    /// The transaction carried no messages, or too many.
    MessageCount(usize),
    /// The memo exceeded [`MAX_MEMO_LEN`].
    MemoTooLong,
    /// A transfer of zero.
    ZeroAmount,
    /// A transaction offering no fee at all.
    ZeroFee,
    /// Underlying crypto failure.
    Crypto(CryptoError),
}

/// The mathematical view of a [`TxError`].
pub enum TxFault {
    InvalidSignature,
    SignatureCount(usize),
    UnsortedSignatures,
    SponsorSignatureMismatch,
    SelfSponsored,
    WrongChain { signed: Seq<char>, expected: Seq<char> },
    Expired { valid_until: u64, current: u64 },
    MessageCount(usize),
    MemoTooLong,
    ZeroAmount,
    ZeroFee,
    Crypto(CryptoError),
}

impl DeepView for TxError {
    type V = TxFault;

    open spec fn deep_view(&self) -> TxFault {
        match *self {
            TxError::InvalidSignature => TxFault::InvalidSignature,
            TxError::SignatureCount(n) => TxFault::SignatureCount(n.deep_view()),
            TxError::UnsortedSignatures => TxFault::UnsortedSignatures,
            TxError::SponsorSignatureMismatch => TxFault::SponsorSignatureMismatch,
            TxError::SelfSponsored => TxFault::SelfSponsored,
            TxError::WrongChain { signed, expected } =>
                TxFault::WrongChain { signed: signed.deep_view(), expected: expected.deep_view() },
            TxError::Expired { valid_until, current } =>
                TxFault::Expired {
                    valid_until: valid_until.deep_view(),
                    current: current.deep_view(),
                },
            TxError::MessageCount(n) => TxFault::MessageCount(n.deep_view()),
            TxError::MemoTooLong => TxFault::MemoTooLong,
            TxError::ZeroAmount => TxFault::ZeroAmount,
            TxError::ZeroFee => TxFault::ZeroFee,
            TxError::Crypto(e) => TxFault::Crypto(e.deep_view()),
        }
    }
}

impl TxFault {
    /// The sentence that describes this error.
    pub open spec fn text(self) -> Seq<char> {
        match self {
            TxFault::InvalidSignature => "invalid signature"@,
            TxFault::SignatureCount(n) =>
                "a transaction must carry 1..=32 signatures, got "@ + text::decimal(n as nat),
            TxFault::UnsortedSignatures => "signatures must be sorted by public key and unique"@,
            TxFault::SponsorSignatureMismatch =>
                "sponsor signatures must be present exactly when a fee payer is named"@,
            TxFault::SelfSponsored =>
                "the fee payer must not be the sender; leave it unset instead"@,
            TxFault::WrongChain { signed, expected } =>
                "wrong chain id: signed for "@ + signed + ", this chain is "@ + expected,
            TxFault::Expired { valid_until, current } =>
                "transaction expired at height "@ + text::decimal(valid_until as nat)
                    + ", current height is "@ + text::decimal(current as nat),
            TxFault::MessageCount(n) =>
                "transaction must carry 1..=64 messages, got "@ + text::decimal(n as nat),
            TxFault::MemoTooLong => "memo exceeds 256 bytes"@,
            TxFault::ZeroAmount => "transfer amount must be greater than zero"@,
            TxFault::ZeroFee => "a transaction must offer a fee greater than zero"@,
            TxFault::Crypto(e) => e.text(),
        }
    }
}

impl TxError {
    /// The sentence that describes this error.
    pub fn to_string(&self) -> (s: String)
        ensures
            s@ == self.deep_view().text(),
    {
        match self {
            TxError::InvalidSignature => String::from_str("invalid signature"),
            TxError::SignatureCount(n) => {
                let mut s = String::from_str("a transaction must carry 1..=32 signatures, got ");
                s.append(text::decimal_text(*n as u128).as_str());
                s
            },
            TxError::UnsortedSignatures => String::from_str(
                "signatures must be sorted by public key and unique",
            ),
            TxError::SponsorSignatureMismatch => String::from_str(
                "sponsor signatures must be present exactly when a fee payer is named",
            ),
            TxError::SelfSponsored => String::from_str(
                "the fee payer must not be the sender; leave it unset instead",
            ),
            TxError::WrongChain { signed, expected } => {
                let mut s = String::from_str("wrong chain id: signed for ");
                s.append(signed.as_str());
                s.append(", this chain is ");
                s.append(expected.as_str());
                s
            },
            TxError::Expired { valid_until, current } => {
                let mut s = String::from_str("transaction expired at height ");
                s.append(text::decimal_text(*valid_until as u128).as_str());
                s.append(", current height is ");
                s.append(text::decimal_text(*current as u128).as_str());
                s
            },
            TxError::MessageCount(n) => {
                let mut s = String::from_str("transaction must carry 1..=64 messages, got ");
                s.append(text::decimal_text(*n as u128).as_str());
                s
            },
            TxError::MemoTooLong => String::from_str("memo exceeds 256 bytes"),
            TxError::ZeroAmount => String::from_str("transfer amount must be greater than zero"),
            TxError::ZeroFee => String::from_str(
                "a transaction must offer a fee greater than zero",
            ),
            TxError::Crypto(e) => e.to_string(),
        }
    }
}

/// The view of the result of a check.
pub open spec fn checked(r: Result<(), TxError>) -> Option<TxFault> {
    match r {
        Ok(()) => None,
        Err(e) => Some(e.deep_view()),
    }
}

/// How the fee is paid: in any whitelisted denomination, and by the sender or by a sponsor.
#[derive(Debug, Clone, PartialEq, Eq)]
pub struct Fee {
    /// Amount offered.
    pub amount: Amount,
    /// Denomination offered; need not be the native coin.
    pub denom: Denom,
    /// Who pays. `None` means the transaction's sender.
    pub payer: Option<Address>,
}

/// The mathematical view of a [`Fee`].
pub struct FeeView {
    pub amount: Amount,
    pub denom: Seq<char>,
    pub payer: Option<Address>,
}

impl DeepView for Fee {
    type V = FeeView;

    open spec fn deep_view(&self) -> FeeView {
        FeeView {
            amount: self.amount.deep_view(),
            denom: self.denom.deep_view(),
            payer: self.payer.deep_view(),
        }
    }
}

impl Fee {
    /// A fee paid by the sender in the given denomination.
    pub fn new(amount: Amount, denom: Denom) -> (f: Self)
        ensures
            f == (Fee { amount, denom, payer: None }),
    {
        Fee { amount, denom, payer: None }
    }

    /// A fee sponsored by a third party.
    pub fn sponsored_by(amount: Amount, denom: Denom, payer: Address) -> (f: Self)
        ensures
            f == (Fee { amount, denom, payer: Some(payer) }),
    {
        Fee { amount, denom, payer: Some(payer) }
    }

    /// The account actually charged, given the transaction's sender.
    pub fn payer_or(&self, sender: Address) -> (a: Address)
        ensures
            a == match self.payer {
                Some(payer) => payer,
                None => sender,
            },
    {
        match self.payer {
            Some(payer) => payer,
            None => sender,
        }
    }

    /// Whether a third party is covering this fee.
    pub fn is_sponsored(&self) -> (b: bool)
        ensures
            b == (self.payer is Some),
    {
        self.payer.is_some()
    }
}

/// An instruction within a transaction.
#[derive(Debug, Clone, PartialEq, Eq)]
pub enum Message {
    /// Move tokens between accounts.
    Transfer {
        /// Recipient.
        to: Address,
        /// Asset moved.
        denom: Denom,
        /// Quantity moved.
        amount: Amount,
        /// The recipient's own reconciliation reference, if they asked for one.
        reference: Option<PaymentReference>,
    },
    /// Form a savings group.
    CreateGroup {
        /// The group's name.
        name: String,
        /// Founding members and their roles.
        members: Vec<FoundingMember>,
        /// Recurring obligation.
        contribution: Contribution,
        /// Rotation or accumulation.
        policy: PayoutPolicy,
        /// Approval share for extraordinary withdrawals.
        quorum: Quorum,
    },
    /// Pay this cycle's contribution into a group.
    ContributeToGroup {
        /// The group account.
        group: Address,
        /// Amount paid in.
        amount: Amount,
    },
    /// Release the pot to the cycle's recipient and advance the rotation.
    GroupPayout {
        /// The group account.
        group: Address,
    },
    /// Claim an unregistered username.
    RegisterName {
        /// The name to claim.
        name: Username,
    },
    /// Extend a registration the sender owns.
    RenewName {
        /// The name to renew.
        name: Username,
    },
    /// Hand a username to another account.
    TransferName {
        /// The name to hand over.
        name: Username,
        /// The new owner.
        to: Address,
    },
    /// Choose which owned name wallets display for the sender's address.
    SetPrimaryAlias {
        /// The name to display.
        name: Username,
    },
    /// Bind a phone number or email to an account.
    AttestContact {
        /// Commitment to the identifier, never the identifier itself.
        commitment: ContactCommitment,
        /// The account it resolves to.
        address: Address,
    },
    /// Ask to point a contact at a different account, subject to the delay.
    RequestRebind {
        /// The contact to move.
        commitment: ContactCommitment,
        /// Where it should point once the delay elapses.
        new_address: Address,
    },
    /// Cancel a pending rebinding.
    VetoRebind {
        /// The contact whose rebinding should be cancelled.
        commitment: ContactCommitment,
    },
    /// Remove a contact binding, by the account it points at.
    RevokeContact {
        /// The contact to unbind.
        commitment: ContactCommitment,
    },
    /// Stop publishing a display name for the sender's address.
    ClearPrimaryAlias,
    /// Give up a name entirely.
    ReleaseName {
        /// The name to release.
        name: Username,
    },
    /// Lock AFRI and register as a validator candidate.
    Bond {
        /// The consensus key this operator will sign blocks with.
        public_key: PublicKey,
        /// Where the operator is.
        country: CountryCode,
        /// How much to lock.
        amount: Amount,
    },
    /// Add to an existing bond.
    AddStake {
        /// How much more to lock.
        amount: Amount,
    },
    /// Begin withdrawing stake.
    Unbond {
        /// How much to queue for withdrawal.
        amount: Amount,
    },
    /// Collect every unbonding entry whose period has elapsed.
    WithdrawUnbonded,
    /// Submit proof that a validator signed two conflicting votes.
    ReportEquivocation {
        /// The two conflicting votes.
        evidence: Box<Equivocation>,
    },
    /// Turn one flag on the sender's own account record on or off. One flag per message, so that a
    /// message can only ever change what it names.
    SetAccountFlag {
        /// Which switch.
        flag: AccountFlag,
        /// On or off.
        enabled: bool,
    },
    /// Replace, or clear, the sender's rotatable signing key.
    SetRegularKey {
        /// The new day-to-day key, or `None` for the master key alone.
        key: Option<PublicKey>,
    },
    /// Replace, or clear, the sender's signer list.
    SetSignerList {
        /// The new arrangement, or `None` to remove it.
        list: Option<SignerList>,
    },
    /// Push a rebinding whose delay has elapsed into effect.
    ApplyRebind {
        /// The contact whose pending rebinding should take effect.
        commitment: ContactCommitment,
    },
}

/// The mathematical view of a [`Message`].
pub enum MessageView {
    Transfer { to: Address, denom: Seq<char>, amount: Amount, reference: Option<PaymentReference> },
    CreateGroup {
        name: Seq<char>,
        members: Seq<FoundingMember>,
        contribution: ContributionView,
        policy: PolicyView,
        quorum: Quorum,
    },
    ContributeToGroup { group: Address, amount: Amount },
    GroupPayout { group: Address },
    RegisterName { name: Seq<char> },
    RenewName { name: Seq<char> },
    TransferName { name: Seq<char>, to: Address },
    SetPrimaryAlias { name: Seq<char> },
    AttestContact { commitment: ContactCommitment, address: Address },
    RequestRebind { commitment: ContactCommitment, new_address: Address },
    VetoRebind { commitment: ContactCommitment },
    RevokeContact { commitment: ContactCommitment },
    ClearPrimaryAlias,
    ReleaseName { name: Seq<char> },
    Bond { public_key: Seq<u8>, country: Seq<u8>, amount: Amount },
    AddStake { amount: Amount },
    Unbond { amount: Amount },
    WithdrawUnbonded,
    ReportEquivocation { evidence: EquivocationView },
    SetAccountFlag { flag: AccountFlag, enabled: bool },
    SetRegularKey { key: Option<Seq<u8>> },
    SetSignerList { list: Option<SignersView> },
    ApplyRebind { commitment: ContactCommitment },
}

impl DeepView for Message {
    type V = MessageView;

    open spec fn deep_view(&self) -> MessageView {
        match *self {
            Message::Transfer { to, denom, amount, reference } =>
                MessageView::Transfer {
                    to: to.deep_view(),
                    denom: denom.deep_view(),
                    amount: amount.deep_view(),
                    reference: reference.deep_view(),
                },
            Message::CreateGroup { name, members, contribution, policy, quorum } =>
                MessageView::CreateGroup {
                    name: name.deep_view(),
                    members: members.deep_view(),
                    contribution: contribution.deep_view(),
                    policy: policy.deep_view(),
                    quorum: quorum.deep_view(),
                },
            Message::ContributeToGroup { group, amount } =>
                MessageView::ContributeToGroup {
                    group: group.deep_view(),
                    amount: amount.deep_view(),
                },
            Message::GroupPayout { group } => MessageView::GroupPayout { group: group.deep_view() },
            Message::RegisterName { name } => MessageView::RegisterName { name: name.deep_view() },
            Message::RenewName { name } => MessageView::RenewName { name: name.deep_view() },
            Message::TransferName { name, to } =>
                MessageView::TransferName { name: name.deep_view(), to: to.deep_view() },
            Message::SetPrimaryAlias { name } =>
                MessageView::SetPrimaryAlias { name: name.deep_view() },
            Message::AttestContact { commitment, address } =>
                MessageView::AttestContact {
                    commitment: commitment.deep_view(),
                    address: address.deep_view(),
                },
            Message::RequestRebind { commitment, new_address } =>
                MessageView::RequestRebind {
                    commitment: commitment.deep_view(),
                    new_address: new_address.deep_view(),
                },
            Message::VetoRebind { commitment } =>
                MessageView::VetoRebind { commitment: commitment.deep_view() },
            Message::RevokeContact { commitment } =>
                MessageView::RevokeContact { commitment: commitment.deep_view() },
            Message::ClearPrimaryAlias => MessageView::ClearPrimaryAlias,
            Message::ReleaseName { name } => MessageView::ReleaseName { name: name.deep_view() },
            Message::Bond { public_key, country, amount } =>
                MessageView::Bond {
                    public_key: public_key.deep_view(),
                    country: country.deep_view(),
                    amount: amount.deep_view(),
                },
            Message::AddStake { amount } => MessageView::AddStake { amount: amount.deep_view() },
            Message::Unbond { amount } => MessageView::Unbond { amount: amount.deep_view() },
            Message::WithdrawUnbonded => MessageView::WithdrawUnbonded,
            Message::ReportEquivocation { evidence } =>
                MessageView::ReportEquivocation { evidence: evidence.deep_view() },
            Message::SetAccountFlag { flag, enabled } =>
                MessageView::SetAccountFlag {
                    flag: flag.deep_view(),
                    enabled: enabled.deep_view(),
                },
            Message::SetRegularKey { key } => MessageView::SetRegularKey { key: key.deep_view() },
            Message::SetSignerList { list } =>
                MessageView::SetSignerList { list: list.deep_view() },
            Message::ApplyRebind { commitment } =>
                MessageView::ApplyRebind { commitment: commitment.deep_view() },
        }
    }
}

impl MessageView {
    /// Whether a message would move value, and moves none.
    pub open spec fn moves_nothing(self) -> bool {
        match self {
            MessageView::Transfer { amount, .. } => amount.0 == 0,
            MessageView::ContributeToGroup { amount, .. } => amount.0 == 0,
            MessageView::Bond { amount, .. } => amount.0 == 0,
            MessageView::AddStake { amount } => amount.0 == 0,
            MessageView::Unbond { amount } => amount.0 == 0,
            _ => false,
        }
    }

    /// Whether a message concerns an account other than its sender's, so that the
    /// account's history should show it.
    pub open spec fn names(self, a: Address) -> bool {
        match self {
            MessageView::Transfer { to, .. } => a == to,
            MessageView::ContributeToGroup { group, .. } => a == group,
            MessageView::GroupPayout { group } => a == group,
            MessageView::CreateGroup { members, .. } => exists|i: int|
                0 <= i < members.len() && (#[trigger] members[i]).address == a,
            MessageView::TransferName { to, .. } => a == to,
            MessageView::AttestContact { address, .. } => a == address,
            MessageView::RequestRebind { new_address, .. } => a == new_address,
            MessageView::ReportEquivocation { evidence } => a == evidence.validator,
            _ => false,
        }
    }
}

impl Message {
    /// Whether this message would move value, and moves none.
    fn is_zero_move(&self) -> (b: bool)
        ensures
            b == self.deep_view().moves_nothing(),
    {
        match self {
            Message::Transfer { amount, .. } => amount.is_zero(),
            Message::ContributeToGroup { amount, .. } => amount.is_zero(),
            Message::Bond { amount, .. } => amount.is_zero(),
            Message::AddStake { amount } => amount.is_zero(),
            Message::Unbond { amount } => amount.is_zero(),
            // These move no value, or carry evidence that proves itself.
            Message::WithdrawUnbonded
            | Message::ReportEquivocation { .. }
            | Message::CreateGroup { .. }
            | Message::GroupPayout { .. }
            | Message::RegisterName { .. }
            | Message::RenewName { .. }
            | Message::TransferName { .. }
            | Message::SetPrimaryAlias { .. }
            | Message::AttestContact { .. }
            | Message::RequestRebind { .. }
            | Message::VetoRebind { .. }
            | Message::RevokeContact { .. }
            | Message::ClearPrimaryAlias
            | Message::SetAccountFlag { .. }
            | Message::SetRegularKey { .. }
            | Message::SetSignerList { .. }
            | Message::ApplyRebind { .. }
            | Message::ReleaseName { .. } => false,
        }
    }
}

/// The signed portion of a transaction.
#[derive(Debug, Clone, PartialEq, Eq)]
pub struct TxBody {
    /// Network this transaction is valid on.
    pub chain_id: ChainId,
    /// Account submitting it.
    pub sender: Address,
    /// Sender's next sequence number.
    pub nonce: u64,
    /// Last block height at which this may be included.
    pub valid_until: Height,
    /// Offered fee.
    pub fee: Fee,
    /// Instructions to execute, in order.
    pub messages: Vec<Message>,
    /// Free-form note.
    pub memo: String,
}

/// The mathematical view of a [`TxBody`].
pub struct BodyView {
    pub chain_id: Seq<char>,
    pub sender: Address,
    pub nonce: u64,
    pub valid_until: Height,
    pub fee: FeeView,
    pub messages: Seq<MessageView>,
    pub memo: Seq<char>,
}

impl DeepView for TxBody {
    type V = BodyView;

    open spec fn deep_view(&self) -> BodyView {
        BodyView {
            chain_id: self.chain_id.deep_view(),
            sender: self.sender.deep_view(),
            nonce: self.nonce.deep_view(),
            valid_until: self.valid_until.deep_view(),
            fee: self.fee.deep_view(),
            messages: self.messages.deep_view(),
            memo: self.memo.deep_view(),
        }
    }
}

/// The first structural rule that a body breaks, if it breaks any.
pub open spec fn body_complaint(b: BodyView) -> Option<TxFault> {
    if b.messages.len() == 0 || b.messages.len() > MAX_MESSAGES {
        Some(TxFault::MessageCount(b.messages.len() as usize))
    } else if encode_utf8(b.memo).len() > MAX_MEMO_LEN {
        Some(TxFault::MemoTooLong)
    } else if b.fee.payer == Some(b.sender) {
        Some(TxFault::SelfSponsored)
    } else if b.fee.amount.0 == 0 {
        Some(TxFault::ZeroFee)
    } else if exists|i: int| 0 <= i < b.messages.len() && (
        #[trigger] b.messages[i]
    ).moves_nothing() {
        Some(TxFault::ZeroAmount)
    } else {
        None
    }
}

impl BodyView {
    /// The bytes a signature commits to.
    pub open spec fn document(self) -> Seq<u8> {
        TxBody::bytes_of(self)
    }

    /// Whether the transaction concerns an account.
    pub open spec fn touches(self, a: Address) -> bool {
        a == self.sender || exists|i: int|
            0 <= i < self.messages.len() && (#[trigger] self.messages[i]).names(a)
    }
}

impl TxBody {
    /// The bytes a signature commits to.
    pub fn sign_doc(&self) -> (doc: Vec<u8>)
        ensures
            doc@ == self.deep_view().document(),
    {
        self.to_bytes()
    }

    /// Sign this body with one key.
    pub fn sign(self, key: &SecretKey) -> (tx: Transaction)
        ensures
            tx.deep_view() == (TxView {
                body: self.deep_view(),
                signatures: seq![signature_by(self.deep_view().document(), key@)],
                sponsor_signatures: Seq::empty(),
            }),
    {
        let keys: [&SecretKey; 1] = [key];
        let ghost seeds = seed_views(keys@);
        proof {
            let doc = self.deep_view().document();
            assert(seeds =~= seq![key@]);
            assert(seeds.drop_last() =~= Seq::empty());
            assert(signatures_by(doc, seeds.drop_last()) =~= Seq::empty());
            assert(signatures_by(doc, seeds) =~= seq![signature_by(doc, key@)]);
        }
        self.sign_with(&keys)
    }

    /// Sign this body as sender, with a sponsor co-signing for the fee.
    ///
    /// Both authorities are needed because the fee comes out of the sponsor's
    /// balance.
    pub fn sign_sponsored(self, sender: &[&SecretKey], sponsor: &[&SecretKey]) -> (tx: Transaction)
        ensures
            tx.deep_view() == (TxView {
                body: self.deep_view(),
                signatures: signatures_by(self.deep_view().document(), seed_views(sender@)),
                sponsor_signatures: signatures_by(
                    self.deep_view().document(),
                    seed_views(sponsor@),
                ),
            }),
    {
        let doc = self.sign_doc();
        let sponsor_signatures = canonical_signatures(doc.as_slice(), sponsor);
        let mut transaction = self.sign_with(sender);
        transaction.sponsor_signatures = sponsor_signatures;
        transaction
    }

    /// Sign this body with several keys, for an account with a signer list.
    ///
    /// The result is sorted and free of repeats, so the same set of signers always
    /// produces the same transaction however the caller ordered them.
    pub fn sign_with(self, keys: &[&SecretKey]) -> (tx: Transaction)
        ensures
            tx.deep_view() == (TxView {
                body: self.deep_view(),
                signatures: signatures_by(self.deep_view().document(), seed_views(keys@)),
                sponsor_signatures: Seq::empty(),
            }),
    {
        let doc = self.sign_doc();
        let signatures = canonical_signatures(doc.as_slice(), keys);
        let tx = Transaction { body: self, signatures, sponsor_signatures: Vec::new() };
        assert(tx.sponsor_signatures.deep_view() =~= Seq::empty());
        tx
    }

    /// Structural checks that need no chain state. The error names the first rule
    /// violated.
    pub fn validate_basic(&self) -> (r: Result<(), TxError>)
        ensures
            checked(r) == body_complaint(self.deep_view()),
    {
        let ghost b = self.deep_view();
        if self.messages.len() == 0 || self.messages.len() > MAX_MESSAGES {
            return Err(TxError::MessageCount(self.messages.len()));
        }
        if text::byte_len(self.memo.as_str()) > MAX_MEMO_LEN {
            return Err(TxError::MemoTooLong);
        }
        if let Some(payer) = &self.fee.payer {
            if *payer == self.sender {
                return Err(TxError::SelfSponsored);
            }
        }
        if self.fee.amount.is_zero() {
            return Err(TxError::ZeroFee);
        }
        let mut i: usize = 0;
        while i < self.messages.len()
            invariant
                i <= self.messages@.len(),
                b == self.deep_view(),
                0 < b.messages.len() <= MAX_MESSAGES,
                b.messages.len() == self.messages@.len(),
                encode_utf8(b.memo).len() <= MAX_MEMO_LEN,
                b.fee.payer != Some(b.sender),
                b.fee.amount.0 != 0,
                forall|j: int| 0 <= j < i ==> !(#[trigger] b.messages[j]).moves_nothing(),
            decreases self.messages@.len() - i,
        {
            assert(self.messages@[i as int].deep_view() == b.messages[i as int]);
            if self.messages[i].is_zero_move() {
                return Err(TxError::ZeroAmount);
            }
            i += 1;
        }
        Ok(())
    }
}

/// One key's signature over a transaction body.
#[derive(Debug, Clone, Copy, PartialEq, Eq)]
pub struct TxSignature {
    /// The key that signed.
    pub public_key: PublicKey,
    /// Signature over [`TxBody::sign_doc`].
    pub signature: Signature,
}

/// The mathematical view of a [`TxSignature`].
pub struct TxSigView {
    pub public_key: Seq<u8>,
    pub signature: Signature,
}

impl DeepView for TxSignature {
    type V = TxSigView;

    open spec fn deep_view(&self) -> TxSigView {
        TxSigView {
            public_key: self.public_key.deep_view(),
            signature: self.signature.deep_view(),
        }
    }
}

/// The views of some signing keys.
pub open spec fn seed_views(keys: Seq<&SecretKey>) -> Seq<Seq<u8>> {
    Seq::new(keys.len(), |i: int| keys[i]@)
}

/// The signature that a key makes on a document.
pub open spec fn signature_by(doc: Seq<u8>, seed: Seq<u8>) -> TxSigView {
    TxSigView {
        public_key: verifying_key_of(seed)@,
        signature: Signature(signature_of(seed, digest(Domain::TxSignDoc, doc).0@)),
    }
}

/// A signature filed among others in the order of their keys, unless its key is
/// there already.
pub open spec fn filed(list: Seq<TxSigView>, x: TxSigView) -> Seq<TxSigView>
    decreases list.len(),
{
    if list.len() == 0 || lex_less(list.last().public_key, x.public_key) {
        list.push(x)
    } else if list.last().public_key == x.public_key {
        list
    } else {
        filed(list.drop_last(), x).push(list.last())
    }
}

/// The signatures of some keys on a document, in the one order the wire format
/// accepts, with no key twice.
pub open spec fn signatures_by(doc: Seq<u8>, seeds: Seq<Seq<u8>>) -> Seq<TxSigView>
    decreases seeds.len(),
{
    if seeds.len() == 0 {
        Seq::empty()
    } else {
        filed(signatures_by(doc, seeds.drop_last()), signature_by(doc, seeds.last()))
    }
}

/// Whether signatures are in ascending order of their keys, so that no key occurs
/// twice.
pub open spec fn sigs_ascend(list: Seq<TxSigView>) -> bool {
    forall|i: int, j: int|
        0 <= i < j < list.len() ==> lex_less(
            #[trigger] list[i].public_key,
            #[trigger] list[j].public_key,
        )
}

proof fn lemma_filed_at(list: Seq<TxSigView>, x: TxSigView, p: int)
    requires
        0 <= p <= list.len(),
        p > 0 ==> lex_less(list[p - 1].public_key, x.public_key),
        forall|j: int|
            p <= j < list.len() ==> lex_less(x.public_key, #[trigger] list[j].public_key),
    ensures
        filed(list, x) == list.insert(p, x),
    decreases list.len(),
{
    if p == list.len() {
        assert(list.insert(p, x) =~= list.push(x));
    } else {
        let last = list.last();
        assert(lex_less(x.public_key, list[list.len() - 1].public_key));
        lemma_lex_irreflexive(x.public_key);
        if lex_less(last.public_key, x.public_key) {
            lemma_lex_transitive(x.public_key, last.public_key, x.public_key);
        }
        let shorter = list.drop_last();
        assert forall|j: int| p <= j < shorter.len() implies lex_less(
            x.public_key,
            #[trigger] shorter[j].public_key,
        ) by {
            assert(shorter[j] == list[j]);
        }
        lemma_filed_at(shorter, x, p);
        assert(shorter.insert(p, x).push(last) =~= list.insert(p, x));
    }
}

proof fn lemma_filed_present(list: Seq<TxSigView>, x: TxSigView, p: int)
    requires
        0 <= p < list.len(),
        list[p].public_key == x.public_key,
        forall|j: int|
            p < j < list.len() ==> lex_less(x.public_key, #[trigger] list[j].public_key),
    ensures
        filed(list, x) == list,
    decreases list.len(),
{
    lemma_lex_irreflexive(x.public_key);
    if p < list.len() - 1 {
        let last = list.last();
        assert(lex_less(x.public_key, list[list.len() - 1].public_key));
        if lex_less(last.public_key, x.public_key) {
            lemma_lex_transitive(x.public_key, last.public_key, x.public_key);
        }
        let shorter = list.drop_last();
        assert forall|j: int| p < j < shorter.len() implies lex_less(
            x.public_key,
            #[trigger] shorter[j].public_key,
        ) by {
            assert(shorter[j] == list[j]);
        }
        lemma_filed_present(shorter, x, p);
        assert(shorter.push(last) =~= list);
    }
}

/// Sign `doc` with every key, in the one order the wire format accepts.
fn canonical_signatures(doc: &[u8], keys: &[&SecretKey]) -> (out: Vec<TxSignature>)
    ensures
        out.deep_view() == signatures_by(doc@, seed_views(keys@)),
{
    let ghost seeds = seed_views(keys@);
    let mut out: Vec<TxSignature> = Vec::new();
    let mut i: usize = 0;
    assert(seeds.take(0) =~= Seq::empty());
    assert(out.deep_view() =~= Seq::empty());
    while i < keys.len()
        invariant
            i <= keys@.len(),
            seeds == seed_views(keys@),
            out.deep_view() == signatures_by(doc@, seeds.take(i as int)),
        decreases keys@.len() - i,
    {
        let public_key = keys[i].public_key();
        let signature = keys[i].sign(Domain::TxSignDoc, doc);
        let entry = TxSignature { public_key, signature };
        let ghost x = entry.deep_view();
        assert(x == signature_by(doc@, seeds[i as int]));
        let mut p: usize = out.len();
        while p > 0 && bytes_less(public_key.as_bytes(), out[p - 1].public_key.as_bytes())
            invariant
                p <= out@.len(),
                x.public_key == public_key@,
                forall|j: int|
                    p <= j < out@.len() ==> lex_less(
                        x.public_key,
                        #[trigger] out.deep_view()[j].public_key,
                    ),
            decreases p,
        {
            p -= 1;
        }
        let ghost before = out.deep_view();
        if p == 0 || public_key != out[p - 1].public_key {
            proof {
                if p > 0 {
                    lemma_lex_total(before[p - 1].public_key, x.public_key);
                }
                lemma_filed_at(before, x, p as int);
            }
            out.insert(p, entry);
            assert(out.deep_view() =~= before.insert(p as int, x));
        } else {
            proof {
                lemma_filed_present(before, x, p - 1);
            }
        }
        assert(seeds.take(i as int + 1).drop_last() =~= seeds.take(i as int));
        assert(seeds.take(i as int + 1).last() == seeds[i as int]);
        i += 1;
    }
    assert(seeds.take(seeds.len() as int) =~= seeds);
    out
}

/// A signed transaction.
#[derive(Debug, Clone, PartialEq, Eq)]
pub struct Transaction {
    /// The signed body.
    pub body: TxBody,
    /// The sender's authority. Sorted by public key, unique, at least one.
    pub signatures: Vec<TxSignature>,
    /// The fee payer's authority, when a third party is sponsoring. A separate list, because one
    /// set must satisfy the sender's account and the other the sponsor's.
    pub sponsor_signatures: Vec<TxSignature>,
}

/// The mathematical view of a [`Transaction`].
pub struct TxView {
    pub body: BodyView,
    pub signatures: Seq<TxSigView>,
    pub sponsor_signatures: Seq<TxSigView>,
}

impl DeepView for Transaction {
    type V = TxView;

    open spec fn deep_view(&self) -> TxView {
        TxView {
            body: self.body.deep_view(),
            signatures: self.signatures.deep_view(),
            sponsor_signatures: self.sponsor_signatures.deep_view(),
        }
    }
}

/// The keys of some signatures.
pub open spec fn signer_keys(list: Seq<TxSigView>) -> Seq<Seq<u8>> {
    Seq::new(list.len(), |i: int| list[i].public_key)
}

/// What is wrong with one list of signatures on a document, if anything is.
pub open spec fn list_complaint(list: Seq<TxSigView>, doc: Seq<u8>) -> Option<TxFault> {
    if !sigs_ascend(list) {
        Some(TxFault::UnsortedSignatures)
    } else if exists|i: int|
        0 <= i < list.len() && !signed_by(
            (#[trigger] list[i]).public_key,
            Domain::TxSignDoc,
            doc,
            list[i].signature,
        ) {
        Some(TxFault::InvalidSignature)
    } else {
        None
    }
}

/// What is wrong with the signatures on a transaction, if anything is.
pub open spec fn signature_complaint(tx: TxView) -> Option<TxFault> {
    if tx.signatures.len() == 0 || tx.signatures.len() > MAX_SIGNATURES {
        Some(TxFault::SignatureCount(tx.signatures.len() as usize))
    } else if tx.sponsor_signatures.len() > MAX_SIGNATURES {
        Some(TxFault::SignatureCount(tx.sponsor_signatures.len() as usize))
    } else if (tx.body.fee.payer is Some) == (tx.sponsor_signatures.len() == 0) {
        Some(TxFault::SponsorSignatureMismatch)
    } else {
        match list_complaint(tx.signatures, tx.body.document()) {
            Some(f) => Some(f),
            None => list_complaint(tx.sponsor_signatures, tx.body.document()),
        }
    }
}

/// What is wrong with a transaction on a chain at a height, if anything is.
pub open spec fn tx_complaint(tx: TxView, chain_id: Seq<char>, height: Height) -> Option<TxFault> {
    if body_complaint(tx.body) is Some {
        body_complaint(tx.body)
    } else if tx.body.chain_id != chain_id {
        Some(TxFault::WrongChain { signed: tx.body.chain_id, expected: chain_id })
    } else if height.0 > tx.body.valid_until.0 {
        Some(TxFault::Expired { valid_until: tx.body.valid_until.0, current: height.0 })
    } else {
        signature_complaint(tx)
    }
}

impl TxView {
    /// The transaction's identifier.
    pub open spec fn id(self) -> Hash32 {
        digest(Domain::TxId, Transaction::bytes_of(self))
    }
}

/// Whether addresses ascend, so that none occurs twice.
pub open spec fn addresses_ascend(list: Seq<Address>) -> bool {
    forall|i: int, j: int| 0 <= i < j < list.len() ==> lex_less(
        #[trigger] list[i].0@,
        #[trigger] list[j].0@,
    )
}

/// File an address among others in ascending order, unless it is there already.
fn file_address(list: &mut Vec<Address>, a: Address)
    requires
        addresses_ascend(old(list)@),
    ensures
        addresses_ascend(final(list)@),
        forall|x: Address| #[trigger] final(list)@.contains(x)
            <==> old(list)@.contains(x) || x == a,
{
    let ghost before = list@;
    let mut p: usize = list.len();
    while p > 0 && bytes_less(a.as_bytes(), list[p - 1].as_bytes())
        invariant
            p <= list@.len(),
            before == list@,
            forall|j: int| p <= j < list@.len() ==> lex_less(a.0@, #[trigger] list@[j].0@),
        decreases p,
    {
        p -= 1;
    }
    if p > 0 && list[p - 1] == a {
        assert(before.contains(a));
        return;
    }
    proof {
        if p > 0 {
            lemma_lex_total(before[p - 1].0@, a.0@);
            if before[p - 1].0@ == a.0@ {
                assert(before[p - 1].0 =~= a.0);
            }
        }
    }
    list.insert(p, a);
    proof {
        let after = list@;
        assert(after =~= before.insert(p as int, a));
        assert forall|i: int, j: int| 0 <= i < j < after.len() implies lex_less(
            #[trigger] after[i].0@,
            #[trigger] after[j].0@,
        ) by {
            if j == p && i < p - 1 {
                lemma_lex_transitive(before[i].0@, before[p - 1].0@, a.0@);
            } else if i < p && j > p {
                assert(lex_less(before[i].0@, before[j - 1].0@));
            } else if i > p {
                assert(lex_less(before[i - 1].0@, before[j - 1].0@));
            }
        }
        assert forall|x: Address|
            #[trigger] after.contains(x) <==> before.contains(x) || x == a by {
            if before.contains(x) {
                let k = choose|k: int| 0 <= k < before.len() && before[k] == x;
                if k < p {
                    assert(after[k] == x);
                } else {
                    assert(after[k + 1] == x);
                }
            }
            if x == a {
                assert(after[p as int] == x);
            }
            if after.contains(x) {
                let k = choose|k: int| 0 <= k < after.len() && after[k] == x;
                if k < p {
                    assert(before[k] == x);
                } else if k > p {
                    assert(before[k - 1] == x);
                }
            }
        }
    }
}

impl Message {
    /// File every account this message concerns, besides its sender.
    ///
    /// The match names every variant, so that a new one that moves value does not
    /// silently become invisible to the recipient's wallet.
    fn file_names(&self, list: &mut Vec<Address>)
        requires
            addresses_ascend(old(list)@),
        ensures
            addresses_ascend(final(list)@),
            forall|x: Address| #[trigger]
                final(list)@.contains(x) <==> old(list)@.contains(x) || self.deep_view().names(x),
    {
        match self {
            Message::Transfer { to, .. } => file_address(list, *to),
            Message::ContributeToGroup { group, .. } => file_address(list, *group),
            Message::GroupPayout { group } => file_address(list, *group),
            Message::CreateGroup { members, .. } => {
                let ghost before = list@;
                let ghost all = members.deep_view();
                let mut i: usize = 0;
                while i < members.len()
                    invariant
                        i <= members@.len(),
                        all == members.deep_view(),
                        addresses_ascend(list@),
                        forall|x: Address| #[trigger]
                            list@.contains(x) <==> before.contains(x) || exists|j: int|
                                0 <= j < i && (#[trigger] all[j]).address == x,
                    decreases members@.len() - i,
                {
                    let ghost so_far = list@;
                    assert(all[i as int] == members@[i as int]);
                    file_address(list, members[i].address);
                    assert forall|x: Address| #[trigger]
                        list@.contains(x) <==> before.contains(x) || exists|j: int|
                            0 <= j < i + 1 && (#[trigger] all[j]).address == x by {
                        if list@.contains(x) && !before.contains(x) {
                            if so_far.contains(x) {
                                let j = choose|j: int|
                                    0 <= j < i && (#[trigger] all[j]).address == x;
                                assert(all[j].address == x);
                            } else {
                                assert(all[i as int].address == x);
                            }
                        }
                        if exists|j: int| 0 <= j < i + 1 && (#[trigger] all[j]).address == x {
                            let j = choose|j: int|
                                0 <= j < i + 1 && (#[trigger] all[j]).address == x;
                            if j < i {
                                assert(so_far.contains(x));
                            }
                        }
                        if before.contains(x) {
                            assert(so_far.contains(x));
                        }
                    }
                    i += 1;
                }
            },
            Message::TransferName { to, .. } => file_address(list, *to),
            Message::AttestContact { address, .. } => file_address(list, *address),
            Message::RequestRebind { new_address, .. } => file_address(list, *new_address),
            // The offender belongs in the index: they did not send the report.
            Message::ReportEquivocation { evidence } => file_address(list, evidence.validator),
            Message::ApplyRebind { .. }
            | Message::RegisterName { .. }
            | Message::RenewName { .. }
            | Message::SetPrimaryAlias { .. }
            | Message::ClearPrimaryAlias
            | Message::ReleaseName { .. }
            | Message::VetoRebind { .. }
            | Message::RevokeContact { .. }
            | Message::SetAccountFlag { .. }
            | Message::SetRegularKey { .. }
            | Message::SetSignerList { .. }
            | Message::Bond { .. }
            | Message::AddStake { .. }
            | Message::Unbond { .. }
            | Message::WithdrawUnbonded => {},
        }
    }
}

/// The keys of some signatures.
fn keys_of(list: &[TxSignature]) -> (keys: Vec<PublicKey>)
    ensures
        key_views(keys@) == signer_keys(list.deep_view()),
{
    let mut keys: Vec<PublicKey> = Vec::new();
    let mut i: usize = 0;
    while i < list.len()
        invariant
            i <= list@.len(),
            keys@.len() == i,
            forall|j: int| 0 <= j < i ==> #[trigger] keys@[j] == list@[j].public_key,
        decreases list@.len() - i,
    {
        keys.push(list[i].public_key);
        i += 1;
    }
    assert(key_views(keys@) =~= signer_keys(list.deep_view()));
    keys
}

/// Whether signatures are in ascending order of their keys.
fn is_sorted(list: &[TxSignature]) -> (b: bool)
    ensures
        b == sigs_ascend(list.deep_view()),
{
    let ghost all = list.deep_view();
    if list.len() == 0 {
        return true;
    }
    let mut i: usize = 1;
    while i < list.len()
        invariant
            1 <= i <= list@.len(),
            all == list.deep_view(),
            forall|j: int, k: int|
                0 <= j < k < i ==> lex_less(
                    #[trigger] all[j].public_key,
                    #[trigger] all[k].public_key,
                ),
        decreases list@.len() - i,
    {
        if !bytes_less(list[i - 1].public_key.as_bytes(), list[i].public_key.as_bytes()) {
            assert(!lex_less(all[i - 1].public_key, all[i as int].public_key));
            return false;
        }
        assert forall|j: int, k: int| 0 <= j < k < i + 1 implies lex_less(
            #[trigger] all[j].public_key,
            #[trigger] all[k].public_key,
        ) by {
            assert(lex_less(all[i - 1].public_key, all[i as int].public_key));
            if k == i && j < i - 1 {
                lemma_lex_transitive(
                    all[j].public_key,
                    all[i - 1].public_key,
                    all[i as int].public_key,
                );
            }
        }
        i += 1;
    }
    true
}

/// Ordering and validity of one list of signatures.
fn check_list(list: &[TxSignature], doc: &[u8]) -> (r: Result<(), TxError>)
    ensures
        checked(r) == list_complaint(list.deep_view(), doc@),
{
    let ghost all = list.deep_view();
    if !is_sorted(list) {
        return Err(TxError::UnsortedSignatures);
    }
    let mut i: usize = 0;
    while i < list.len()
        invariant
            i <= list@.len(),
            all == list.deep_view(),
            sigs_ascend(all),
            forall|j: int|
                0 <= j < i ==> signed_by(
                    (#[trigger] all[j]).public_key,
                    Domain::TxSignDoc,
                    doc@,
                    all[j].signature,
                ),
        decreases list@.len() - i,
    {
        assert(all[i as int] == list@[i as int].deep_view());
        if list[i].public_key.verify(Domain::TxSignDoc, doc, &list[i].signature).is_err() {
            return Err(TxError::InvalidSignature);
        }
        i += 1;
    }
    Ok(())
}

impl Transaction {
    /// The transaction's identifier: a hash of its complete encoding.
    pub fn id(&self) -> (h: Hash32)
        ensures
            h == self.deep_view().id(),
    {
        hash(Domain::TxId, self.to_bytes().as_slice())
    }

    /// Every address a node should file this transaction under, in ascending order
    /// and without repeats: the sender, and everybody a message concerns.
    pub fn touched_addresses(&self) -> (out: Vec<Address>)
        ensures
            addresses_ascend(out@),
            forall|a: Address| #[trigger]
                out@.contains(a) <==> self.deep_view().body.touches(a),
    {
        let ghost b = self.deep_view().body;
        let mut out: Vec<Address> = Vec::new();
        file_address(&mut out, self.body.sender);
        let mut i: usize = 0;
        while i < self.body.messages.len()
            invariant
                i <= self.body.messages@.len(),
                b == self.deep_view().body,
                b.messages.len() == self.body.messages@.len(),
                addresses_ascend(out@),
                forall|a: Address| #[trigger]
                    out@.contains(a) <==> a == b.sender || exists|j: int|
                        0 <= j < i && (#[trigger] b.messages[j]).names(a),
            decreases self.body.messages@.len() - i,
        {
            let ghost so_far = out@;
            assert(self.body.messages@[i as int].deep_view() == b.messages[i as int]);
            self.body.messages[i].file_names(&mut out);
            assert forall|a: Address| #[trigger]
                out@.contains(a) <==> a == b.sender || exists|j: int|
                    0 <= j < i + 1 && (#[trigger] b.messages[j]).names(a) by {
                if out@.contains(a) && a != b.sender {
                    if so_far.contains(a) {
                        let j = choose|j: int| 0 <= j < i && (#[trigger] b.messages[j]).names(a);
                        assert(b.messages[j].names(a));
                    } else {
                        assert(b.messages[i as int].names(a));
                    }
                }
                if exists|j: int| 0 <= j < i + 1 && (#[trigger] b.messages[j]).names(a) {
                    let j = choose|j: int| 0 <= j < i + 1 && (#[trigger] b.messages[j]).names(a);
                    if j < i {
                        assert(so_far.contains(a));
                    }
                }
                if a == b.sender {
                    assert(so_far.contains(a));
                }
            }
            i += 1;
        }
        out
    }

    /// The keys on the sender's signatures, to be fed to
    /// [`Account::authorises`](crate::types::account::Account::authorises).
    pub fn signing_keys(&self) -> (keys: Vec<PublicKey>)
        ensures
            key_views(keys@) == signer_keys(self.deep_view().signatures),
    {
        let list = self.signatures.as_slice();
        assert(list.deep_view() =~= self.signatures.deep_view());
        keys_of(list)
    }

    /// The keys the fee payer presented, when a third party is sponsoring. Check
    /// these against the payer's account, never against the sender's.
    pub fn sponsor_keys(&self) -> (keys: Vec<PublicKey>)
        ensures
            key_views(keys@) == signer_keys(self.deep_view().sponsor_signatures),
    {
        let list = self.sponsor_signatures.as_slice();
        assert(list.deep_view() =~= self.sponsor_signatures.deep_view());
        keys_of(list)
    }

    /// Everything that can be checked without reading chain state: structure, chain
    /// binding, expiry, signature canonicality, and that every signature verifies.
    ///
    /// A caller that stops here has authenticated a signature and authorised
    /// nothing.
    pub fn verify_stateless(&self, chain_id: &ChainId, current_height: Height) -> (r: Result<
        (),
        TxError,
    >)
        ensures
            checked(r) == tx_complaint(self.deep_view(), chain_id@, current_height),
    {
        match self.body.validate_basic() {
            Ok(()) => {},
            Err(e) => {
                return Err(e);
            },
        }
        if self.body.chain_id != *chain_id {
            return Err(
                TxError::WrongChain {
                    signed: self.body.chain_id.to_string(),
                    expected: chain_id.to_string(),
                },
            );
        }
        if current_height.0 > self.body.valid_until.0 {
            return Err(
                TxError::Expired {
                    valid_until: self.body.valid_until.0,
                    current: current_height.0,
                },
            );
        }
        self.check_signatures()
    }

    /// Signature count, ordering and validity, for both authorities.
    fn check_signatures(&self) -> (r: Result<(), TxError>)
        ensures
            checked(r) == signature_complaint(self.deep_view()),
    {
        if self.signatures.len() == 0 || self.signatures.len() > MAX_SIGNATURES {
            return Err(TxError::SignatureCount(self.signatures.len()));
        }
        if self.sponsor_signatures.len() > MAX_SIGNATURES {
            return Err(TxError::SignatureCount(self.sponsor_signatures.len()));
        }
        // Empty exactly when there is no sponsor: a sponsored fee with no sponsor
        // signature would spend a stranger's money, and sponsor signatures on an
        // unsponsored fee change the id while authorising nothing.
        if self.body.fee.is_sponsored() == (self.sponsor_signatures.len() == 0) {
            return Err(TxError::SponsorSignatureMismatch);
        }
        let doc = self.body.sign_doc();
        let own = self.signatures.as_slice();
        let sponsor = self.sponsor_signatures.as_slice();
        assert(own.deep_view() =~= self.signatures.deep_view());
        assert(sponsor.deep_view() =~= self.sponsor_signatures.deep_view());
        match check_list(own, doc.as_slice()) {
            Ok(()) => check_list(sponsor, doc.as_slice()),
            Err(e) => Err(e),
        }
    }

    /// Decode a transaction from untrusted bytes.
    pub fn from_bytes(bytes: &[u8]) -> (r: Result<Self, CodecError>)
        ensures
            outcome(r) == parse_exact::<Transaction>(bytes@),
    {
        decode_exact::<Self>(bytes)
    }
}

// ---------------------------------------------------------------------------
// What a signature commits to
// ---------------------------------------------------------------------------

/// A signature binds everything in the body: two bodies that are signed as the same
/// bytes are the same body, down to the chain, the nonce and the expiry.
pub proof fn law_the_document_determines_the_body(a: BodyView, b: BodyView)
    requires
        TxBody::valid(a),
        TxBody::valid(b),
        a.document() == b.document(),
    ensures
        a == b,
{
    law_encoding_is_injective::<TxBody>(a, b);
}

/// What is hashed for a transaction's id.
pub open spec fn id_preimage(tx: TxView) -> Preimage {
    Preimage { domain: Domain::TxId, bytes: Transaction::bytes_of(tx) }
}

/// One id names one transaction, as long as the two hashed encodings do not clash.
pub proof fn law_an_id_names_one_transaction(a: TxView, b: TxView)
    requires
        Transaction::valid(a),
        Transaction::valid(b),
        clash_free(set![id_preimage(a), id_preimage(b)]),
        a.id() == b.id(),
    ensures
        a == b,
{
    let hashed = set![id_preimage(a), id_preimage(b)];
    assert(hashed.contains(id_preimage(a)) && hashed.contains(id_preimage(b)));
    assert(id_preimage(a).hash() == id_preimage(b).hash());
    law_encoding_is_injective::<Transaction>(a, b);
}

/// A transaction signature can never be presented as a consensus vote: the digest
/// that is signed differs, whatever the documents, as long as the two do not clash.
pub proof fn law_a_transaction_signature_is_no_vote(doc: Seq<u8>, vote: Seq<u8>)
    requires
        clash_free(
            set![
                Preimage { domain: Domain::TxSignDoc, bytes: doc },
                Preimage { domain: Domain::VoteSignDoc, bytes: vote },
            ],
        ),
    ensures
        digest(Domain::TxSignDoc, doc) != digest(Domain::VoteSignDoc, vote),
{
    let a = Preimage { domain: Domain::TxSignDoc, bytes: doc };
    let b = Preimage { domain: Domain::VoteSignDoc, bytes: vote };
    let hashed = set![a, b];
    assert(hashed.contains(a) && hashed.contains(b));
    assert(a.hash() == digest(Domain::TxSignDoc, doc));
    assert(b.hash() == digest(Domain::VoteSignDoc, vote));
}

/// A transaction for one chain passes on no other.
pub proof fn law_no_replay_across_chains(
    tx: TxView,
    chain_id: Seq<char>,
    other: Seq<char>,
    height: Height,
    other_height: Height,
)
    requires
        tx_complaint(tx, chain_id, height) is None,
        other != chain_id,
    ensures
        tx_complaint(tx, other, other_height) is Some,
{
}

/// A transaction that was not included in time never becomes valid again.
pub proof fn law_expiry_is_final(tx: TxView, chain_id: Seq<char>, height: Height, later: Height)
    requires
        height.0 > tx.body.valid_until.0,
        later.0 >= height.0,
    ensures
        tx_complaint(tx, chain_id, later) is Some,
{
}

/// Nobody's balance pays a fee without their signature: a transaction that passes
/// carries sponsor signatures exactly when it names a fee payer.
pub proof fn law_sponsors_consent(tx: TxView, chain_id: Seq<char>, height: Height)
    requires
        tx_complaint(tx, chain_id, height) is None,
    ensures
        (tx.body.fee.payer is Some) == (tx.sponsor_signatures.len() > 0),
        tx.body.fee.payer != Some(tx.body.sender),
        forall|i: int|
            0 <= i < tx.sponsor_signatures.len() ==> signed_by(
                (#[trigger] tx.sponsor_signatures[i]).public_key,
                Domain::TxSignDoc,
                tx.body.document(),
                tx.sponsor_signatures[i].signature,
            ),
{
}

proof fn lemma_filed(list: Seq<TxSigView>, x: TxSigView)
    requires
        sigs_ascend(list),
    ensures
        sigs_ascend(filed(list, x)),
        list.len() <= filed(list, x).len() <= list.len() + 1,
        forall|k: int|
            0 <= k < filed(list, x).len() ==> #[trigger] filed(list, x)[k] == x || list.contains(
                filed(list, x)[k],
            ),
        forall|y: TxSigView| #[trigger] list.contains(y) ==> filed(list, x).contains(y),
        exists|k: int|
            0 <= k < filed(list, x).len() && (#[trigger] filed(list, x)[k]).public_key
                == x.public_key,
    decreases list.len(),
{
    let out = filed(list, x);
    if list.len() == 0 || lex_less(list.last().public_key, x.public_key) {
        assert forall|i: int, j: int| 0 <= i < j < out.len() implies lex_less(
            #[trigger] out[i].public_key,
            #[trigger] out[j].public_key,
        ) by {
            if j == list.len() && i < list.len() - 1 {
                lemma_lex_transitive(
                    list[i].public_key,
                    list[list.len() - 1].public_key,
                    x.public_key,
                );
            }
        }
        assert forall|k: int| 0 <= k < out.len() implies #[trigger] out[k] == x || list.contains(
            out[k],
        ) by {
            if k < list.len() {
                assert(out[k] == list[k]);
            }
        }
        assert forall|y: TxSigView| #[trigger] list.contains(y) implies out.contains(y) by {
            let k = choose|k: int| 0 <= k < list.len() && list[k] == y;
            assert(out[k] == y);
        }
        assert(out[list.len() as int].public_key == x.public_key);
    } else if list.last().public_key == x.public_key {
        assert(out[list.len() - 1].public_key == x.public_key);
        assert forall|k: int| 0 <= k < out.len() implies #[trigger] out[k] == x || list.contains(
            out[k],
        ) by {
            assert(out[k] == list[k]);
        }
    } else {
        let shorter = list.drop_last();
        let last = list.last();
        assert forall|i: int, j: int| 0 <= i < j < shorter.len() implies lex_less(
            #[trigger] shorter[i].public_key,
            #[trigger] shorter[j].public_key,
        ) by {
            assert(lex_less(list[i].public_key, list[j].public_key));
        }
        lemma_filed(shorter, x);
        lemma_lex_total(last.public_key, x.public_key);
        let low = filed(shorter, x);
        assert(out == low.push(last));
        assert forall|i: int, j: int| 0 <= i < j < out.len() implies lex_less(
            #[trigger] out[i].public_key,
            #[trigger] out[j].public_key,
        ) by {
            if j == low.len() {
                assert(low[i] == x || shorter.contains(low[i]));
                if low[i] != x {
                    let m = choose|m: int| 0 <= m < shorter.len() && shorter[m] == low[i];
                    assert(lex_less(list[m].public_key, list[list.len() - 1].public_key));
                }
            } else {
                assert(out[i] == low[i] && out[j] == low[j]);
            }
        }
        assert forall|k: int| 0 <= k < out.len() implies #[trigger] out[k] == x || list.contains(
            out[k],
        ) by {
            if k < low.len() {
                assert(out[k] == low[k]);
                if low[k] != x {
                    let m = choose|m: int| 0 <= m < shorter.len() && shorter[m] == low[k];
                    assert(list[m] == out[k]);
                }
            } else {
                assert(out[k] == list[list.len() - 1]);
            }
        }
        assert forall|y: TxSigView| #[trigger] list.contains(y) implies out.contains(y) by {
            let k = choose|k: int| 0 <= k < list.len() && list[k] == y;
            if k < shorter.len() {
                assert(shorter[k] == y);
                assert(shorter.contains(y));
                assert(low.contains(y));
                let m = choose|m: int| 0 <= m < low.len() && low[m] == y;
                assert(out[m] == y);
            } else {
                assert(out[low.len() as int] == y);
            }
        }
        let m = choose|m: int|
            0 <= m < low.len() && (#[trigger] low[m]).public_key == x.public_key;
        assert(out[m].public_key == x.public_key);
    }
}

/// Whether a signature is the one that some key of a list makes on a document.
pub open spec fn made_by(doc: Seq<u8>, seeds: Seq<Seq<u8>>, x: TxSigView) -> bool {
    exists|i: int| 0 <= i < seeds.len() && x == signature_by(doc, #[trigger] seeds[i])
}

/// Whether a list holds a signature by a key.
pub open spec fn has_key(list: Seq<TxSigView>, key: Seq<u8>) -> bool {
    exists|k: int| 0 <= k < list.len() && (#[trigger] list[k]).public_key == key
}

/// Signing with some keys gives a canonical list: in ascending order, with every
/// key's signature in it and none besides, and no longer than the list of keys.
pub proof fn law_signing_is_canonical(doc: Seq<u8>, seeds: Seq<Seq<u8>>)
    ensures
        sigs_ascend(signatures_by(doc, seeds)),
        signatures_by(doc, seeds).len() <= seeds.len(),
        seeds.len() > 0 ==> signatures_by(doc, seeds).len() > 0,
        forall|x: TxSigView| #[trigger]
            signatures_by(doc, seeds).contains(x) ==> made_by(doc, seeds, x),
        forall|i: int|
            0 <= i < seeds.len() ==> has_key(
                signatures_by(doc, seeds),
                verifying_key_of(#[trigger] seeds[i])@,
            ),
    decreases seeds.len(),
{
    if seeds.len() > 0 {
        let shorter = seeds.drop_last();
        let x = signature_by(doc, seeds.last());
        law_signing_is_canonical(doc, shorter);
        let low = signatures_by(doc, shorter);
        let out = signatures_by(doc, seeds);
        lemma_filed(low, x);
        assert forall|y: TxSigView| #[trigger] out.contains(y) implies made_by(doc, seeds, y) by {
            let k = choose|k: int| 0 <= k < out.len() && out[k] == y;
            assert(out[k] == x || low.contains(out[k]));
            if y == x {
                assert(y == signature_by(doc, seeds[seeds.len() - 1]));
            } else {
                assert(made_by(doc, shorter, y));
                let i = choose|i: int|
                    0 <= i < shorter.len() && y == signature_by(doc, #[trigger] shorter[i]);
                assert(y == signature_by(doc, seeds[i]));
            }
        }
        assert forall|i: int| 0 <= i < seeds.len() implies has_key(
            out,
            verifying_key_of(#[trigger] seeds[i])@,
        ) by {
            if i < shorter.len() {
                assert(shorter[i] == seeds[i]);
                let key = verifying_key_of(shorter[i])@;
                assert(has_key(low, key));
                let m = choose|m: int| 0 <= m < low.len() && (#[trigger] low[m]).public_key == key;
                assert(low.contains(low[m]));
                assert(out.contains(low[m]));
                let k = choose|k: int| 0 <= k < out.len() && out[k] == low[m];
                assert(out[k].public_key == key);
            }
        }
    } else {
        assert(signatures_by(doc, seeds).len() == 0);
    }
}

/// A transaction that is signed by its sender's keys passes, once its body does:
/// its signatures are refused exactly where the signature scheme refuses one.
pub proof fn law_a_signed_transaction_passes(body: BodyView, seeds: Seq<Seq<u8>>, height: Height)
    requires
        body_complaint(body) is None,
        body.fee.payer is None,
        height.0 <= body.valid_until.0,
        0 < seeds.len() <= MAX_SIGNATURES,
        forall|i: int|
            0 <= i < seeds.len() ==> signed_by(
                signature_by(body.document(), #[trigger] seeds[i]).public_key,
                Domain::TxSignDoc,
                body.document(),
                signature_by(body.document(), seeds[i]).signature,
            ),
    ensures
        tx_complaint(
            TxView {
                body,
                signatures: signatures_by(body.document(), seeds),
                sponsor_signatures: Seq::empty(),
            },
            body.chain_id,
            height,
        ) is None,
{
    let doc = body.document();
    let list = signatures_by(doc, seeds);
    law_signing_is_canonical(doc, seeds);
    assert forall|k: int| 0 <= k < list.len() implies signed_by(
        (#[trigger] list[k]).public_key,
        Domain::TxSignDoc,
        doc,
        list[k].signature,
    ) by {
        assert(list.contains(list[k]));
        assert(made_by(doc, seeds, list[k]));
        let i = choose|i: int|
            0 <= i < seeds.len() && list[k] == signature_by(doc, #[trigger] seeds[i]);
        assert(list[k] == signature_by(doc, seeds[i]));
    }
}

proof fn lemma_ascending_lists_agree(a: Seq<TxSigView>, b: Seq<TxSigView>)
    requires
        sigs_ascend(a),
        sigs_ascend(b),
        forall|x: TxSigView| #[trigger] a.contains(x) <==> b.contains(x),
    ensures
        a == b,
    decreases a.len(),
{
    if a.len() == 0 {
        if b.len() > 0 {
            assert(b.contains(b[0]));
            assert(a.contains(b[0]));
        }
        assert(a =~= b);
    } else {
        assert(a.contains(a[0]));
        assert(b.contains(a[0]));
        assert(b.len() > 0);
        let i = a.len() - 1;
        let j = b.len() - 1;
        let x = a[i];
        let y = b[j];
        assert(a.contains(x) && b.contains(y));
        assert(b.contains(x) && a.contains(y));
        let m = choose|m: int| 0 <= m < b.len() && b[m] == x;
        let n = choose|n: int| 0 <= n < a.len() && a[n] == y;
        if m < j && n < i {
            assert(lex_less(b[m].public_key, b[j].public_key));
            assert(lex_less(a[n].public_key, a[i].public_key));
            lemma_lex_transitive(x.public_key, y.public_key, x.public_key);
            lemma_lex_irreflexive(x.public_key);
        }
        assert(x == y);
        let p = a.drop_last();
        let q = b.drop_last();
        assert forall|z: TxSigView| #[trigger] p.contains(z) <==> q.contains(z) by {
            if p.contains(z) {
                let k = choose|k: int| 0 <= k < p.len() && p[k] == z;
                assert(a[k] == z);
                assert(lex_less(a[k].public_key, a[i].public_key));
                lemma_lex_irreflexive(z.public_key);
                assert(a.contains(z));
                let l = choose|l: int| 0 <= l < b.len() && b[l] == z;
                assert(l != j);
                assert(q[l] == z);
            }
            if q.contains(z) {
                let k = choose|k: int| 0 <= k < q.len() && q[k] == z;
                assert(b[k] == z);
                assert(lex_less(b[k].public_key, b[j].public_key));
                lemma_lex_irreflexive(z.public_key);
                assert(b.contains(z));
                assert(a.contains(z));
                let l = choose|l: int| 0 <= l < a.len() && a[l] == z;
                assert(l != i);
                assert(p[l] == z);
            }
        }
        assert forall|k: int, l: int| 0 <= k < l < p.len() implies lex_less(
            #[trigger] p[k].public_key,
            #[trigger] p[l].public_key,
        ) by {
            assert(lex_less(a[k].public_key, a[l].public_key));
        }
        assert forall|k: int, l: int| 0 <= k < l < q.len() implies lex_less(
            #[trigger] q[k].public_key,
            #[trigger] q[l].public_key,
        ) by {
            assert(lex_less(b[k].public_key, b[l].public_key));
        }
        lemma_ascending_lists_agree(p, q);
        assert(a =~= p.push(x));
        assert(b =~= q.push(y));
    }
}

/// Whether no two different keys of a list share a public half.
pub open spec fn distinct_keys(seeds: Seq<Seq<u8>>) -> bool {
    forall|i: int, j: int|
        0 <= i < seeds.len() && 0 <= j < seeds.len() && verifying_key_of(#[trigger] seeds[i])@
            == verifying_key_of(#[trigger] seeds[j])@ ==> seeds[i] == seeds[j]
}

proof fn lemma_signature_is_present(doc: Seq<u8>, seeds: Seq<Seq<u8>>, i: int)
    requires
        distinct_keys(seeds),
        0 <= i < seeds.len(),
    ensures
        signatures_by(doc, seeds).contains(signature_by(doc, seeds[i])),
{
    law_signing_is_canonical(doc, seeds);
    let out = signatures_by(doc, seeds);
    assert(has_key(out, verifying_key_of(seeds[i])@));
    let k = choose|k: int|
        0 <= k < out.len() && (#[trigger] out[k]).public_key == verifying_key_of(seeds[i])@;
    assert(out.contains(out[k]));
    assert(made_by(doc, seeds, out[k]));
    let j = choose|j: int| 0 <= j < seeds.len() && out[k] == signature_by(doc, #[trigger] seeds[j]);
    assert(out[k].public_key == verifying_key_of(seeds[j])@);
    assert(seeds[i] == seeds[j]);
}

/// The same signers produce the same signatures, and so the same transaction id, in
/// whatever order they are asked.
pub proof fn law_signing_ignores_order(doc: Seq<u8>, seeds: Seq<Seq<u8>>, others: Seq<Seq<u8>>)
    requires
        distinct_keys(seeds),
        distinct_keys(others),
        seeds.to_set() == others.to_set(),
    ensures
        signatures_by(doc, seeds) == signatures_by(doc, others),
{
    let a = signatures_by(doc, seeds);
    let b = signatures_by(doc, others);
    law_signing_is_canonical(doc, seeds);
    law_signing_is_canonical(doc, others);
    assert forall|x: TxSigView| #[trigger] a.contains(x) <==> b.contains(x) by {
        if a.contains(x) {
            assert(made_by(doc, seeds, x));
            let i = choose|i: int|
                0 <= i < seeds.len() && x == signature_by(doc, #[trigger] seeds[i]);
            assert(seeds.to_set().contains(seeds[i]));
            assert(others.to_set().contains(seeds[i]));
            let j = choose|j: int| 0 <= j < others.len() && others[j] == seeds[i];
            lemma_signature_is_present(doc, others, j);
        }
        if b.contains(x) {
            assert(made_by(doc, others, x));
            let i = choose|i: int|
                0 <= i < others.len() && x == signature_by(doc, #[trigger] others[i]);
            assert(others.to_set().contains(others[i]));
            assert(seeds.to_set().contains(others[i]));
            let j = choose|j: int| 0 <= j < seeds.len() && seeds[j] == others[i];
            lemma_signature_is_present(doc, seeds, j);
        }
    }
    lemma_ascending_lists_agree(a, b);
}

// ---------------------------------------------------------------------------
// Canonical encoding
// ---------------------------------------------------------------------------

/// The sentence that refuses a wrong number of signatures.
pub open spec fn wrong_signature_count(n: nat) -> Seq<char> {
    "a transaction must carry 1..=32 signatures, got "@ + text::decimal(n)
}

/// The sentence that refuses too many sponsor signatures.
pub open spec fn too_many_sponsor_signatures(n: nat) -> Seq<char> {
    "a transaction may carry at most 32 sponsor signatures, got "@ + text::decimal(n)
}

/// The first rule of the canonical form that a transaction's signature lists break,
/// if they break any. The form is enforced where bytes are decoded because the id
/// is a hash of them: a second spelling would be a second id for one transaction.
pub open spec fn form_complaint(tx: TxView) -> Option<Seq<char>> {
    if tx.signatures.len() == 0 || tx.signatures.len() > MAX_SIGNATURES {
        Some(wrong_signature_count(tx.signatures.len()))
    } else if tx.sponsor_signatures.len() > MAX_SIGNATURES {
        Some(too_many_sponsor_signatures(tx.sponsor_signatures.len()))
    } else if !sigs_ascend(tx.signatures) || !sigs_ascend(tx.sponsor_signatures) {
        Some("transaction signatures must be sorted by public key and unique"@)
    } else {
        None
    }
}

impl Encode for Fee {
    open spec fn bytes_of(v: FeeView) -> Seq<u8> {
        <(Amount, (Denom, Option<Address>))>::bytes_of((v.amount, (v.denom, v.payer)))
    }

    fn encode(&self, out: &mut Vec<u8>) {
        broadcast use wire::lemma_concat_assoc;

        self.amount.encode(out);
        self.denom.encode(out);
        self.payer.encode(out);
    }
}

impl Decode for Fee {
    open spec fn parse(s: Seq<u8>) -> Parsed<FeeView> {
        <(Amount, (Denom, Option<Address>))>::parse(s).map(
            |t: (Amount, (Seq<char>, Option<Address>))|
                FeeView { amount: t.0, denom: t.1.0, payer: t.1.1 },
        )
    }

    fn decode(r: &mut Reader<'_>) -> (res: Result<Self, CodecError>) {
        let amount = Amount::decode(r)?;
        let denom = Denom::decode(r)?;
        let payer = Option::<Address>::decode(r)?;
        Ok(Fee { amount, denom, payer })
    }
}

impl Canonical for Fee {
    open spec fn valid(v: FeeView) -> bool {
        <(Amount, (Denom, Option<Address>))>::valid((v.amount, (v.denom, v.payer)))
    }

    proof fn round_trip(v: FeeView, tail: Seq<u8>) {
        <(Amount, (Denom, Option<Address>))>::round_trip((v.amount, (v.denom, v.payer)), tail);
    }

    proof fn one_encoding(s: Seq<u8>) {
        <(Amount, (Denom, Option<Address>))>::one_encoding(s);
    }
}

/// The tag that a message starts with.
pub open spec fn message_tag(v: MessageView) -> u8 {
    match v {
        MessageView::Transfer { .. } => 0,
        MessageView::CreateGroup { .. } => 1,
        MessageView::ContributeToGroup { .. } => 2,
        MessageView::GroupPayout { .. } => 3,
        MessageView::RegisterName { .. } => 4,
        MessageView::RenewName { .. } => 5,
        MessageView::TransferName { .. } => 6,
        MessageView::SetPrimaryAlias { .. } => 7,
        MessageView::AttestContact { .. } => 8,
        MessageView::RequestRebind { .. } => 9,
        MessageView::VetoRebind { .. } => 10,
        MessageView::RevokeContact { .. } => 11,
        MessageView::ClearPrimaryAlias => 12,
        MessageView::ReleaseName { .. } => 13,
        MessageView::Bond { .. } => 14,
        MessageView::AddStake { .. } => 15,
        MessageView::Unbond { .. } => 16,
        MessageView::WithdrawUnbonded => 17,
        MessageView::ReportEquivocation { .. } => 18,
        MessageView::SetAccountFlag { .. } => 19,
        MessageView::SetRegularKey { .. } => 20,
        MessageView::SetSignerList { .. } => 21,
        MessageView::ApplyRebind { .. } => 22,
    }
}

/// The bytes of a message that moves value or concerns a group.
#[verifier::opaque]
pub open spec fn value_message_bytes(v: MessageView) -> Seq<u8> {
    match v {
        MessageView::Transfer { to, denom, amount, reference } =>
            u8::bytes_of(0) + TransferTerms::bytes_of(
            (to, (denom, (amount, reference))),
        ),
        MessageView::CreateGroup { name, members, contribution, policy, quorum } =>
            u8::bytes_of(1) + GroupTerms::bytes_of(
            (name, (members, (contribution, (policy, quorum)))),
        ),
        MessageView::ContributeToGroup { group, amount } =>
            u8::bytes_of(2) + <(Address, Amount)>::bytes_of(
            (group, amount),
        ),
        MessageView::GroupPayout { group } => u8::bytes_of(3) + Address::bytes_of(
            group,
        ),
        _ => Seq::empty(),
    }
}

/// Whether the wire format admits a message that moves value or concerns a group.
#[verifier::opaque]
pub open spec fn value_message_valid(v: MessageView) -> bool {
    match v {
        MessageView::Transfer { to, denom, amount, reference } =>
            TransferTerms::valid((to, (denom, (amount, reference)))),
        MessageView::CreateGroup { name, members, contribution, policy, quorum } =>
            GroupTerms::valid((name, (members, (contribution, (policy, quorum))))),
        MessageView::ContributeToGroup { group, amount } =>
            <(Address, Amount)>::valid((group, amount)),
        MessageView::GroupPayout { group } => Address::valid(group),
        _ => false,
    }
}

/// Reading a message that moves value or concerns a group.
#[verifier::opaque]
pub open spec fn parse_value_message(tag: u8, rest: Seq<u8>) -> Parsed<MessageView> {
    if tag == 0 {
        TransferTerms::parse(rest).map(
            |t: (Address, (Seq<char>, (Amount, Option<PaymentReference>)))|
                MessageView::Transfer {
                    to: t.0,
                    denom: t.1.0,
                    amount: t.1.1.0,
                    reference: t.1.1.1,
                },
        )
    } else if tag == 1 {
        GroupTerms::parse(rest).map(
            |t: (Seq<char>, (Seq<FoundingMember>, (ContributionView, (PolicyView, Quorum))))|
                MessageView::CreateGroup {
                    name: t.0,
                    members: t.1.0,
                    contribution: t.1.1.0,
                    policy: t.1.1.1.0,
                    quorum: t.1.1.1.1,
                },
        )
    } else if tag == 2 {
        <(Address, Amount)>::parse(rest).map(
            |t: (Address, Amount)|
                MessageView::ContributeToGroup { group: t.0, amount: t.1 },
        )
    } else if tag == 3 {
        Address::parse(rest).map(
            |t: Address|
                MessageView::GroupPayout { group: t },
        )
    } else {
        fault(CodecFault::UnknownDiscriminant { tag, what: "Message"@ }, rest)
    }
}

fn decode_value_message(tag: u8, r: &mut Reader<'_>) -> (res: Result<Message, CodecError>)
    ensures
        final(r).source() == old(r).source(),
        outcome(res) == parse_value_message(tag, old(r).rest()).value,
        final(r).rest() == parse_value_message(tag, old(r).rest()).rest,
{
    reveal(parse_value_message);
    match tag {
        0 => {
            let (to, (denom, (amount, reference))) = TransferTerms::decode(r)?;
            Ok(Message::Transfer { to, denom, amount, reference })
        },
        1 => {
            let (name, (members, (contribution, (policy, quorum)))) = GroupTerms::decode(r)?;
            Ok(Message::CreateGroup { name, members, contribution, policy, quorum })
        },
        2 => {
            let (group, amount) = <(Address, Amount)>::decode(r)?;
            Ok(Message::ContributeToGroup { group, amount })
        },
        3 => {
            let group = Address::decode(r)?;
            Ok(Message::GroupPayout { group })
        },
        _ => Err(CodecError::UnknownDiscriminant { tag, what: "Message" }),
    }
}

proof fn lemma_value_message_round_trip(v: MessageView, tail: Seq<u8>)
    requires
        value_message_valid(v),
    ensures
        ({
            let s = value_message_bytes(v) + tail;
            &&& u8::parse(s).value == Ok::<u8, CodecFault>(message_tag(v))
            &&& parse_value_message(message_tag(v), u8::parse(s).rest) == (
                Parsed { value: Ok(v), rest: tail }
            )
        }),
{
    reveal(value_message_bytes);
    reveal(value_message_valid);
    reveal(parse_value_message);
    match v {
        MessageView::Transfer { to, denom, amount, reference } => {
            let t = (to, (denom, (amount, reference)));
            wire::lemma_tagged_round_trip::<TransferTerms>(0, t, tail);
        },
        MessageView::CreateGroup { name, members, contribution, policy, quorum } => {
            let t = (name, (members, (contribution, (policy, quorum))));
            wire::lemma_tagged_round_trip::<GroupTerms>(1, t, tail);
        },
        MessageView::ContributeToGroup { group, amount } => {
            let t = (group, amount);
            wire::lemma_tagged_round_trip::<(Address, Amount)>(2, t, tail);
        },
        MessageView::GroupPayout { group } => {
            let t = group;
            wire::lemma_tagged_round_trip::<Address>(3, t, tail);
        },
        _ => {},
    }
}

proof fn lemma_value_message_has_one_encoding(tag: u8, s: Seq<u8>)
    requires
        u8::parse(s).value == Ok::<u8, CodecFault>(tag),
    ensures
        parse_value_message(tag, u8::parse(s).rest).value matches Ok(v)
            ==> message_tag(v) == tag && value_message_valid(v)
            && s == value_message_bytes(v) + parse_value_message(tag, u8::parse(s).rest).rest,
{
    reveal(value_message_bytes);
    reveal(value_message_valid);
    reveal(parse_value_message);
    u8::one_encoding(s);
    let rest = u8::parse(s).rest;
    if tag == 0 {
        if TransferTerms::parse(rest).value is Ok {
            wire::lemma_tagged_one_encoding::<TransferTerms>(0, s);
        }
    } else if tag == 1 {
        if GroupTerms::parse(rest).value is Ok {
            wire::lemma_tagged_one_encoding::<GroupTerms>(1, s);
        }
    } else if tag == 2 {
        if <(Address, Amount)>::parse(rest).value is Ok {
            wire::lemma_tagged_one_encoding::<(Address, Amount)>(2, s);
        }
    } else if tag == 3 {
        if Address::parse(rest).value is Ok {
            wire::lemma_tagged_one_encoding::<Address>(3, s);
        }
    }
}

/// The bytes of a message about usernames.
#[verifier::opaque]
pub open spec fn name_message_bytes(v: MessageView) -> Seq<u8> {
    match v {
        MessageView::RegisterName { name } => u8::bytes_of(4) + Username::bytes_of(
            name,
        ),
        MessageView::RenewName { name } => u8::bytes_of(5) + Username::bytes_of(
            name,
        ),
        MessageView::TransferName { name, to } => u8::bytes_of(6) + <(Username, Address)>::bytes_of(
            (name, to),
        ),
        MessageView::SetPrimaryAlias { name } => u8::bytes_of(7) + Username::bytes_of(
            name,
        ),
        MessageView::ClearPrimaryAlias => u8::bytes_of(12),
        MessageView::ReleaseName { name } => u8::bytes_of(13) + Username::bytes_of(
            name,
        ),
        _ => Seq::empty(),
    }
}

/// Whether the wire format admits a message about usernames.
#[verifier::opaque]
pub open spec fn name_message_valid(v: MessageView) -> bool {
    match v {
        MessageView::RegisterName { name } => Username::valid(name),
        MessageView::RenewName { name } => Username::valid(name),
        MessageView::TransferName { name, to } => <(Username, Address)>::valid((name, to)),
        MessageView::SetPrimaryAlias { name } => Username::valid(name),
        MessageView::ClearPrimaryAlias => true,
        MessageView::ReleaseName { name } => Username::valid(name),
        _ => false,
    }
}

/// Reading a message about usernames.
#[verifier::opaque]
pub open spec fn parse_name_message(tag: u8, rest: Seq<u8>) -> Parsed<MessageView> {
    if tag == 4 {
        Username::parse(rest).map(
            |t: Seq<char>|
                MessageView::RegisterName { name: t },
        )
    } else if tag == 5 {
        Username::parse(rest).map(
            |t: Seq<char>|
                MessageView::RenewName { name: t },
        )
    } else if tag == 6 {
        <(Username, Address)>::parse(rest).map(
            |t: (Seq<char>, Address)|
                MessageView::TransferName { name: t.0, to: t.1 },
        )
    } else if tag == 7 {
        Username::parse(rest).map(
            |t: Seq<char>|
                MessageView::SetPrimaryAlias { name: t },
        )
    } else if tag == 12 {
        Parsed { value: Ok(MessageView::ClearPrimaryAlias), rest }
    } else if tag == 13 {
        Username::parse(rest).map(
            |t: Seq<char>|
                MessageView::ReleaseName { name: t },
        )
    } else {
        fault(CodecFault::UnknownDiscriminant { tag, what: "Message"@ }, rest)
    }
}

fn decode_name_message(tag: u8, r: &mut Reader<'_>) -> (res: Result<Message, CodecError>)
    ensures
        final(r).source() == old(r).source(),
        outcome(res) == parse_name_message(tag, old(r).rest()).value,
        final(r).rest() == parse_name_message(tag, old(r).rest()).rest,
{
    reveal(parse_name_message);
    match tag {
        4 => {
            let name = Username::decode(r)?;
            Ok(Message::RegisterName { name })
        },
        5 => {
            let name = Username::decode(r)?;
            Ok(Message::RenewName { name })
        },
        6 => {
            let (name, to) = <(Username, Address)>::decode(r)?;
            Ok(Message::TransferName { name, to })
        },
        7 => {
            let name = Username::decode(r)?;
            Ok(Message::SetPrimaryAlias { name })
        },
        12 => Ok(Message::ClearPrimaryAlias),
        13 => {
            let name = Username::decode(r)?;
            Ok(Message::ReleaseName { name })
        },
        _ => Err(CodecError::UnknownDiscriminant { tag, what: "Message" }),
    }
}

proof fn lemma_name_message_round_trip(v: MessageView, tail: Seq<u8>)
    requires
        name_message_valid(v),
    ensures
        ({
            let s = name_message_bytes(v) + tail;
            &&& u8::parse(s).value == Ok::<u8, CodecFault>(message_tag(v))
            &&& parse_name_message(message_tag(v), u8::parse(s).rest) == (
                Parsed { value: Ok(v), rest: tail }
            )
        }),
{
    reveal(name_message_bytes);
    reveal(name_message_valid);
    reveal(parse_name_message);
    match v {
        MessageView::RegisterName { name } => {
            let t = name;
            wire::lemma_tagged_round_trip::<Username>(4, t, tail);
        },
        MessageView::RenewName { name } => {
            let t = name;
            wire::lemma_tagged_round_trip::<Username>(5, t, tail);
        },
        MessageView::TransferName { name, to } => {
            let t = (name, to);
            wire::lemma_tagged_round_trip::<(Username, Address)>(6, t, tail);
        },
        MessageView::SetPrimaryAlias { name } => {
            let t = name;
            wire::lemma_tagged_round_trip::<Username>(7, t, tail);
        },
        MessageView::ClearPrimaryAlias => {
            u8::round_trip(12, tail);
        },
        MessageView::ReleaseName { name } => {
            let t = name;
            wire::lemma_tagged_round_trip::<Username>(13, t, tail);
        },
        _ => {},
    }
}

proof fn lemma_name_message_has_one_encoding(tag: u8, s: Seq<u8>)
    requires
        u8::parse(s).value == Ok::<u8, CodecFault>(tag),
    ensures
        parse_name_message(tag, u8::parse(s).rest).value matches Ok(v)
            ==> message_tag(v) == tag && name_message_valid(v)
            && s == name_message_bytes(v) + parse_name_message(tag, u8::parse(s).rest).rest,
{
    reveal(name_message_bytes);
    reveal(name_message_valid);
    reveal(parse_name_message);
    u8::one_encoding(s);
    let rest = u8::parse(s).rest;
    if tag == 4 {
        if Username::parse(rest).value is Ok {
            wire::lemma_tagged_one_encoding::<Username>(4, s);
        }
    } else if tag == 5 {
        if Username::parse(rest).value is Ok {
            wire::lemma_tagged_one_encoding::<Username>(5, s);
        }
    } else if tag == 6 {
        if <(Username, Address)>::parse(rest).value is Ok {
            wire::lemma_tagged_one_encoding::<(Username, Address)>(6, s);
        }
    } else if tag == 7 {
        if Username::parse(rest).value is Ok {
            wire::lemma_tagged_one_encoding::<Username>(7, s);
        }
    } else if tag == 13 {
        if Username::parse(rest).value is Ok {
            wire::lemma_tagged_one_encoding::<Username>(13, s);
        }
    }
}

/// The bytes of a message about contact bindings.
#[verifier::opaque]
pub open spec fn contact_message_bytes(v: MessageView) -> Seq<u8> {
    match v {
        MessageView::AttestContact { commitment, address } =>
            u8::bytes_of(8) + <(ContactCommitment, Address)>::bytes_of(
            (commitment, address),
        ),
        MessageView::RequestRebind { commitment, new_address } =>
            u8::bytes_of(9) + <(ContactCommitment, Address)>::bytes_of(
            (commitment, new_address),
        ),
        MessageView::VetoRebind { commitment } => u8::bytes_of(10) + ContactCommitment::bytes_of(
            commitment,
        ),
        MessageView::RevokeContact { commitment } => u8::bytes_of(11) + ContactCommitment::bytes_of(
            commitment,
        ),
        MessageView::ApplyRebind { commitment } => u8::bytes_of(22) + ContactCommitment::bytes_of(
            commitment,
        ),
        _ => Seq::empty(),
    }
}

/// Whether the wire format admits a message about contact bindings.
#[verifier::opaque]
pub open spec fn contact_message_valid(v: MessageView) -> bool {
    match v {
        MessageView::AttestContact { commitment, address } =>
            <(ContactCommitment, Address)>::valid((commitment, address)),
        MessageView::RequestRebind { commitment, new_address } =>
            <(ContactCommitment, Address)>::valid((commitment, new_address)),
        MessageView::VetoRebind { commitment } => ContactCommitment::valid(commitment),
        MessageView::RevokeContact { commitment } => ContactCommitment::valid(commitment),
        MessageView::ApplyRebind { commitment } => ContactCommitment::valid(commitment),
        _ => false,
    }
}

/// Reading a message about contact bindings.
#[verifier::opaque]
pub open spec fn parse_contact_message(tag: u8, rest: Seq<u8>) -> Parsed<MessageView> {
    if tag == 8 {
        <(ContactCommitment, Address)>::parse(rest).map(
            |t: (ContactCommitment, Address)|
                MessageView::AttestContact { commitment: t.0, address: t.1 },
        )
    } else if tag == 9 {
        <(ContactCommitment, Address)>::parse(rest).map(
            |t: (ContactCommitment, Address)|
                MessageView::RequestRebind { commitment: t.0, new_address: t.1 },
        )
    } else if tag == 10 {
        ContactCommitment::parse(rest).map(
            |t: ContactCommitment|
                MessageView::VetoRebind { commitment: t },
        )
    } else if tag == 11 {
        ContactCommitment::parse(rest).map(
            |t: ContactCommitment|
                MessageView::RevokeContact { commitment: t },
        )
    } else if tag == 22 {
        ContactCommitment::parse(rest).map(
            |t: ContactCommitment|
                MessageView::ApplyRebind { commitment: t },
        )
    } else {
        fault(CodecFault::UnknownDiscriminant { tag, what: "Message"@ }, rest)
    }
}

fn decode_contact_message(tag: u8, r: &mut Reader<'_>) -> (res: Result<Message, CodecError>)
    ensures
        final(r).source() == old(r).source(),
        outcome(res) == parse_contact_message(tag, old(r).rest()).value,
        final(r).rest() == parse_contact_message(tag, old(r).rest()).rest,
{
    reveal(parse_contact_message);
    match tag {
        8 => {
            let (commitment, address) = <(ContactCommitment, Address)>::decode(r)?;
            Ok(Message::AttestContact { commitment, address })
        },
        9 => {
            let (commitment, new_address) = <(ContactCommitment, Address)>::decode(r)?;
            Ok(Message::RequestRebind { commitment, new_address })
        },
        10 => {
            let commitment = ContactCommitment::decode(r)?;
            Ok(Message::VetoRebind { commitment })
        },
        11 => {
            let commitment = ContactCommitment::decode(r)?;
            Ok(Message::RevokeContact { commitment })
        },
        22 => {
            let commitment = ContactCommitment::decode(r)?;
            Ok(Message::ApplyRebind { commitment })
        },
        _ => Err(CodecError::UnknownDiscriminant { tag, what: "Message" }),
    }
}

proof fn lemma_contact_message_round_trip(v: MessageView, tail: Seq<u8>)
    requires
        contact_message_valid(v),
    ensures
        ({
            let s = contact_message_bytes(v) + tail;
            &&& u8::parse(s).value == Ok::<u8, CodecFault>(message_tag(v))
            &&& parse_contact_message(message_tag(v), u8::parse(s).rest) == (
                Parsed { value: Ok(v), rest: tail }
            )
        }),
{
    reveal(contact_message_bytes);
    reveal(contact_message_valid);
    reveal(parse_contact_message);
    match v {
        MessageView::AttestContact { commitment, address } => {
            let t = (commitment, address);
            wire::lemma_tagged_round_trip::<(ContactCommitment, Address)>(8, t, tail);
        },
        MessageView::RequestRebind { commitment, new_address } => {
            let t = (commitment, new_address);
            wire::lemma_tagged_round_trip::<(ContactCommitment, Address)>(9, t, tail);
        },
        MessageView::VetoRebind { commitment } => {
            let t = commitment;
            wire::lemma_tagged_round_trip::<ContactCommitment>(10, t, tail);
        },
        MessageView::RevokeContact { commitment } => {
            let t = commitment;
            wire::lemma_tagged_round_trip::<ContactCommitment>(11, t, tail);
        },
        MessageView::ApplyRebind { commitment } => {
            let t = commitment;
            wire::lemma_tagged_round_trip::<ContactCommitment>(22, t, tail);
        },
        _ => {},
    }
}

proof fn lemma_contact_message_has_one_encoding(tag: u8, s: Seq<u8>)
    requires
        u8::parse(s).value == Ok::<u8, CodecFault>(tag),
    ensures
        parse_contact_message(tag, u8::parse(s).rest).value matches Ok(v)
            ==> message_tag(v) == tag && contact_message_valid(v)
            && s == contact_message_bytes(v) + parse_contact_message(tag, u8::parse(s).rest).rest,
{
    reveal(contact_message_bytes);
    reveal(contact_message_valid);
    reveal(parse_contact_message);
    u8::one_encoding(s);
    let rest = u8::parse(s).rest;
    if tag == 8 {
        if <(ContactCommitment, Address)>::parse(rest).value is Ok {
            wire::lemma_tagged_one_encoding::<(ContactCommitment, Address)>(8, s);
        }
    } else if tag == 9 {
        if <(ContactCommitment, Address)>::parse(rest).value is Ok {
            wire::lemma_tagged_one_encoding::<(ContactCommitment, Address)>(9, s);
        }
    } else if tag == 10 {
        if ContactCommitment::parse(rest).value is Ok {
            wire::lemma_tagged_one_encoding::<ContactCommitment>(10, s);
        }
    } else if tag == 11 {
        if ContactCommitment::parse(rest).value is Ok {
            wire::lemma_tagged_one_encoding::<ContactCommitment>(11, s);
        }
    } else if tag == 22 {
        if ContactCommitment::parse(rest).value is Ok {
            wire::lemma_tagged_one_encoding::<ContactCommitment>(22, s);
        }
    }
}

/// The bytes of a message about stake.
#[verifier::opaque]
pub open spec fn stake_message_bytes(v: MessageView) -> Seq<u8> {
    match v {
        MessageView::Bond { public_key, country, amount } =>
            u8::bytes_of(14) + <(PublicKey, (CountryCode, Amount))>::bytes_of(
            (public_key, (country, amount)),
        ),
        MessageView::AddStake { amount } => u8::bytes_of(15) + Amount::bytes_of(
            amount,
        ),
        MessageView::Unbond { amount } => u8::bytes_of(16) + Amount::bytes_of(
            amount,
        ),
        MessageView::WithdrawUnbonded => u8::bytes_of(17),
        _ => Seq::empty(),
    }
}

/// Whether the wire format admits a message about stake.
#[verifier::opaque]
pub open spec fn stake_message_valid(v: MessageView) -> bool {
    match v {
        MessageView::Bond { public_key, country, amount } =>
            <(PublicKey, (CountryCode, Amount))>::valid((public_key, (country, amount))),
        MessageView::AddStake { amount } => Amount::valid(amount),
        MessageView::Unbond { amount } => Amount::valid(amount),
        MessageView::WithdrawUnbonded => true,
        _ => false,
    }
}

/// Reading a message about stake.
#[verifier::opaque]
pub open spec fn parse_stake_message(tag: u8, rest: Seq<u8>) -> Parsed<MessageView> {
    if tag == 14 {
        <(PublicKey, (CountryCode, Amount))>::parse(rest).map(
            |t: (Seq<u8>, (Seq<u8>, Amount))|
                MessageView::Bond { public_key: t.0, country: t.1.0, amount: t.1.1 },
        )
    } else if tag == 15 {
        Amount::parse(rest).map(
            |t: Amount|
                MessageView::AddStake { amount: t },
        )
    } else if tag == 16 {
        Amount::parse(rest).map(
            |t: Amount|
                MessageView::Unbond { amount: t },
        )
    } else if tag == 17 {
        Parsed { value: Ok(MessageView::WithdrawUnbonded), rest }
    } else {
        fault(CodecFault::UnknownDiscriminant { tag, what: "Message"@ }, rest)
    }
}

fn decode_stake_message(tag: u8, r: &mut Reader<'_>) -> (res: Result<Message, CodecError>)
    ensures
        final(r).source() == old(r).source(),
        outcome(res) == parse_stake_message(tag, old(r).rest()).value,
        final(r).rest() == parse_stake_message(tag, old(r).rest()).rest,
{
    reveal(parse_stake_message);
    match tag {
        14 => {
            let (public_key, (country, amount)) = <(PublicKey, (CountryCode, Amount))>::decode(r)?;
            Ok(Message::Bond { public_key, country, amount })
        },
        15 => {
            let amount = Amount::decode(r)?;
            Ok(Message::AddStake { amount })
        },
        16 => {
            let amount = Amount::decode(r)?;
            Ok(Message::Unbond { amount })
        },
        17 => Ok(Message::WithdrawUnbonded),
        _ => Err(CodecError::UnknownDiscriminant { tag, what: "Message" }),
    }
}

proof fn lemma_stake_message_round_trip(v: MessageView, tail: Seq<u8>)
    requires
        stake_message_valid(v),
    ensures
        ({
            let s = stake_message_bytes(v) + tail;
            &&& u8::parse(s).value == Ok::<u8, CodecFault>(message_tag(v))
            &&& parse_stake_message(message_tag(v), u8::parse(s).rest) == (
                Parsed { value: Ok(v), rest: tail }
            )
        }),
{
    reveal(stake_message_bytes);
    reveal(stake_message_valid);
    reveal(parse_stake_message);
    match v {
        MessageView::Bond { public_key, country, amount } => {
            let t = (public_key, (country, amount));
            wire::lemma_tagged_round_trip::<(PublicKey, (CountryCode, Amount))>(14, t, tail);
        },
        MessageView::AddStake { amount } => {
            let t = amount;
            wire::lemma_tagged_round_trip::<Amount>(15, t, tail);
        },
        MessageView::Unbond { amount } => {
            let t = amount;
            wire::lemma_tagged_round_trip::<Amount>(16, t, tail);
        },
        MessageView::WithdrawUnbonded => {
            u8::round_trip(17, tail);
        },
        _ => {},
    }
}

proof fn lemma_stake_message_has_one_encoding(tag: u8, s: Seq<u8>)
    requires
        u8::parse(s).value == Ok::<u8, CodecFault>(tag),
    ensures
        parse_stake_message(tag, u8::parse(s).rest).value matches Ok(v)
            ==> message_tag(v) == tag && stake_message_valid(v)
            && s == stake_message_bytes(v) + parse_stake_message(tag, u8::parse(s).rest).rest,
{
    reveal(stake_message_bytes);
    reveal(stake_message_valid);
    reveal(parse_stake_message);
    u8::one_encoding(s);
    let rest = u8::parse(s).rest;
    if tag == 14 {
        if <(PublicKey, (CountryCode, Amount))>::parse(rest).value is Ok {
            wire::lemma_tagged_one_encoding::<(PublicKey, (CountryCode, Amount))>(14, s);
        }
    } else if tag == 15 {
        if Amount::parse(rest).value is Ok {
            wire::lemma_tagged_one_encoding::<Amount>(15, s);
        }
    } else if tag == 16 {
        if Amount::parse(rest).value is Ok {
            wire::lemma_tagged_one_encoding::<Amount>(16, s);
        }
    }
}

/// The bytes of a message that carries evidence.
#[verifier::opaque]
pub open spec fn evidence_message_bytes(v: MessageView) -> Seq<u8> {
    match v {
        MessageView::ReportEquivocation { evidence } => u8::bytes_of(18) + Equivocation::bytes_of(
            evidence,
        ),
        _ => Seq::empty(),
    }
}

/// Whether the wire format admits a message that carries evidence.
#[verifier::opaque]
pub open spec fn evidence_message_valid(v: MessageView) -> bool {
    match v {
        MessageView::ReportEquivocation { evidence } => Equivocation::valid(evidence),
        _ => false,
    }
}

/// Reading a message that carries evidence.
#[verifier::opaque]
pub open spec fn parse_evidence_message(tag: u8, rest: Seq<u8>) -> Parsed<MessageView> {
    if tag == 18 {
        Equivocation::parse(rest).map(
            |t: EquivocationView|
                MessageView::ReportEquivocation { evidence: t },
        )
    } else {
        fault(CodecFault::UnknownDiscriminant { tag, what: "Message"@ }, rest)
    }
}

fn decode_evidence_message(tag: u8, r: &mut Reader<'_>) -> (res: Result<Message, CodecError>)
    ensures
        final(r).source() == old(r).source(),
        outcome(res) == parse_evidence_message(tag, old(r).rest()).value,
        final(r).rest() == parse_evidence_message(tag, old(r).rest()).rest,
{
    reveal(parse_evidence_message);
    match tag {
        18 => {
            let evidence = Equivocation::decode(r)?;
            Ok(Message::ReportEquivocation { evidence: Box::new(evidence) })
        },
        _ => Err(CodecError::UnknownDiscriminant { tag, what: "Message" }),
    }
}

proof fn lemma_evidence_message_round_trip(v: MessageView, tail: Seq<u8>)
    requires
        evidence_message_valid(v),
    ensures
        ({
            let s = evidence_message_bytes(v) + tail;
            &&& u8::parse(s).value == Ok::<u8, CodecFault>(message_tag(v))
            &&& parse_evidence_message(message_tag(v), u8::parse(s).rest) == (
                Parsed { value: Ok(v), rest: tail }
            )
        }),
{
    reveal(evidence_message_bytes);
    reveal(evidence_message_valid);
    reveal(parse_evidence_message);
    match v {
        MessageView::ReportEquivocation { evidence } => {
            let t = evidence;
            wire::lemma_tagged_round_trip::<Equivocation>(18, t, tail);
        },
        _ => {},
    }
}

proof fn lemma_evidence_message_has_one_encoding(tag: u8, s: Seq<u8>)
    requires
        u8::parse(s).value == Ok::<u8, CodecFault>(tag),
    ensures
        parse_evidence_message(tag, u8::parse(s).rest).value matches Ok(v)
            ==> message_tag(v) == tag && evidence_message_valid(v)
            && s == evidence_message_bytes(v) + parse_evidence_message(tag, u8::parse(s).rest).rest,
{
    reveal(evidence_message_bytes);
    reveal(evidence_message_valid);
    reveal(parse_evidence_message);
    u8::one_encoding(s);
    let rest = u8::parse(s).rest;
    if tag == 18 {
        if Equivocation::parse(rest).value is Ok {
            wire::lemma_tagged_one_encoding::<Equivocation>(18, s);
        }
    }
}

/// The bytes of a message about the sender's own account record.
#[verifier::opaque]
pub open spec fn account_message_bytes(v: MessageView) -> Seq<u8> {
    match v {
        MessageView::SetAccountFlag { flag, enabled } =>
            u8::bytes_of(19) + <(AccountFlag, bool)>::bytes_of(
            (flag, enabled),
        ),
        MessageView::SetRegularKey { key } => u8::bytes_of(20) + <Option<PublicKey>>::bytes_of(
            key,
        ),
        _ => Seq::empty(),
    }
}

/// Whether the wire format admits a message about the sender's own account record.
#[verifier::opaque]
pub open spec fn account_message_valid(v: MessageView) -> bool {
    match v {
        MessageView::SetAccountFlag { flag, enabled } =>
            <(AccountFlag, bool)>::valid((flag, enabled)),
        MessageView::SetRegularKey { key } => <Option<PublicKey>>::valid(key),
        _ => false,
    }
}

/// Reading a message about the sender's own account record.
#[verifier::opaque]
pub open spec fn parse_account_message(tag: u8, rest: Seq<u8>) -> Parsed<MessageView> {
    if tag == 19 {
        <(AccountFlag, bool)>::parse(rest).map(
            |t: (AccountFlag, bool)|
                MessageView::SetAccountFlag { flag: t.0, enabled: t.1 },
        )
    } else if tag == 20 {
        <Option<PublicKey>>::parse(rest).map(
            |t: Option<Seq<u8>>|
                MessageView::SetRegularKey { key: t },
        )
    } else {
        fault(CodecFault::UnknownDiscriminant { tag, what: "Message"@ }, rest)
    }
}

fn decode_account_message(tag: u8, r: &mut Reader<'_>) -> (res: Result<Message, CodecError>)
    ensures
        final(r).source() == old(r).source(),
        outcome(res) == parse_account_message(tag, old(r).rest()).value,
        final(r).rest() == parse_account_message(tag, old(r).rest()).rest,
{
    reveal(parse_account_message);
    match tag {
        19 => {
            let (flag, enabled) = <(AccountFlag, bool)>::decode(r)?;
            Ok(Message::SetAccountFlag { flag, enabled })
        },
        20 => {
            let key = <Option<PublicKey>>::decode(r)?;
            Ok(Message::SetRegularKey { key })
        },
        _ => Err(CodecError::UnknownDiscriminant { tag, what: "Message" }),
    }
}

proof fn lemma_account_message_round_trip(v: MessageView, tail: Seq<u8>)
    requires
        account_message_valid(v),
    ensures
        ({
            let s = account_message_bytes(v) + tail;
            &&& u8::parse(s).value == Ok::<u8, CodecFault>(message_tag(v))
            &&& parse_account_message(message_tag(v), u8::parse(s).rest) == (
                Parsed { value: Ok(v), rest: tail }
            )
        }),
{
    reveal(account_message_bytes);
    reveal(account_message_valid);
    reveal(parse_account_message);
    match v {
        MessageView::SetAccountFlag { flag, enabled } => {
            let t = (flag, enabled);
            wire::lemma_tagged_round_trip::<(AccountFlag, bool)>(19, t, tail);
        },
        MessageView::SetRegularKey { key } => {
            let t = key;
            wire::lemma_tagged_round_trip::<Option<PublicKey>>(20, t, tail);
        },
        _ => {},
    }
}

proof fn lemma_account_message_has_one_encoding(tag: u8, s: Seq<u8>)
    requires
        u8::parse(s).value == Ok::<u8, CodecFault>(tag),
    ensures
        parse_account_message(tag, u8::parse(s).rest).value matches Ok(v)
            ==> message_tag(v) == tag && account_message_valid(v)
            && s == account_message_bytes(v) + parse_account_message(tag, u8::parse(s).rest).rest,
{
    reveal(account_message_bytes);
    reveal(account_message_valid);
    reveal(parse_account_message);
    u8::one_encoding(s);
    let rest = u8::parse(s).rest;
    if tag == 19 {
        if <(AccountFlag, bool)>::parse(rest).value is Ok {
            wire::lemma_tagged_one_encoding::<(AccountFlag, bool)>(19, s);
        }
    } else if tag == 20 {
        if <Option<PublicKey>>::parse(rest).value is Ok {
            wire::lemma_tagged_one_encoding::<Option<PublicKey>>(20, s);
        }
    }
}

/// The bytes of a message about the sender's signer list.
#[verifier::opaque]
pub open spec fn signer_message_bytes(v: MessageView) -> Seq<u8> {
    match v {
        MessageView::SetSignerList { list } => u8::bytes_of(21) + <Option<SignerList>>::bytes_of(
            list,
        ),
        _ => Seq::empty(),
    }
}

/// Whether the wire format admits a message about the sender's signer list.
#[verifier::opaque]
pub open spec fn signer_message_valid(v: MessageView) -> bool {
    match v {
        MessageView::SetSignerList { list } => <Option<SignerList>>::valid(list),
        _ => false,
    }
}

/// Reading a message about the sender's signer list.
#[verifier::opaque]
pub open spec fn parse_signer_message(tag: u8, rest: Seq<u8>) -> Parsed<MessageView> {
    if tag == 21 {
        <Option<SignerList>>::parse(rest).map(
            |t: Option<SignersView>|
                MessageView::SetSignerList { list: t },
        )
    } else {
        fault(CodecFault::UnknownDiscriminant { tag, what: "Message"@ }, rest)
    }
}

fn decode_signer_message(tag: u8, r: &mut Reader<'_>) -> (res: Result<Message, CodecError>)
    ensures
        final(r).source() == old(r).source(),
        outcome(res) == parse_signer_message(tag, old(r).rest()).value,
        final(r).rest() == parse_signer_message(tag, old(r).rest()).rest,
{
    reveal(parse_signer_message);
    match tag {
        21 => {
            let list = <Option<SignerList>>::decode(r)?;
            Ok(Message::SetSignerList { list })
        },
        _ => Err(CodecError::UnknownDiscriminant { tag, what: "Message" }),
    }
}

proof fn lemma_signer_message_round_trip(v: MessageView, tail: Seq<u8>)
    requires
        signer_message_valid(v),
    ensures
        ({
            let s = signer_message_bytes(v) + tail;
            &&& u8::parse(s).value == Ok::<u8, CodecFault>(message_tag(v))
            &&& parse_signer_message(message_tag(v), u8::parse(s).rest) == (
                Parsed { value: Ok(v), rest: tail }
            )
        }),
{
    reveal(signer_message_bytes);
    reveal(signer_message_valid);
    reveal(parse_signer_message);
    match v {
        MessageView::SetSignerList { list } => {
            let t = list;
            wire::lemma_tagged_round_trip::<Option<SignerList>>(21, t, tail);
        },
        _ => {},
    }
}

proof fn lemma_signer_message_has_one_encoding(tag: u8, s: Seq<u8>)
    requires
        u8::parse(s).value == Ok::<u8, CodecFault>(tag),
    ensures
        parse_signer_message(tag, u8::parse(s).rest).value matches Ok(v)
            ==> message_tag(v) == tag && signer_message_valid(v)
            && s == signer_message_bytes(v) + parse_signer_message(tag, u8::parse(s).rest).rest,
{
    reveal(signer_message_bytes);
    reveal(signer_message_valid);
    reveal(parse_signer_message);
    u8::one_encoding(s);
    let rest = u8::parse(s).rest;
    if tag == 21 {
        if <Option<SignerList>>::parse(rest).value is Ok {
            wire::lemma_tagged_one_encoding::<Option<SignerList>>(21, s);
        }
    }
}

impl Encode for Message {
    open spec fn bytes_of(v: MessageView) -> Seq<u8> {
        let tag = message_tag(v);
        if 0 <= tag <= 3 {
            value_message_bytes(v)
        } else if 4 <= tag <= 7 || 12 <= tag <= 13 {
            name_message_bytes(v)
        } else if 8 <= tag <= 11 || tag == 22 {
            contact_message_bytes(v)
        } else if 14 <= tag <= 17 {
            stake_message_bytes(v)
        } else if tag == 18 {
            evidence_message_bytes(v)
        } else if 19 <= tag <= 20 {
            account_message_bytes(v)
        } else {
            signer_message_bytes(v)
        }
    }

    fn encode(&self, out: &mut Vec<u8>) {
        reveal(value_message_bytes);
        reveal(name_message_bytes);
        reveal(contact_message_bytes);
        reveal(stake_message_bytes);
        reveal(evidence_message_bytes);
        reveal(account_message_bytes);
        reveal(signer_message_bytes);
        match self {
            Message::Transfer { to, denom, amount, reference } => {
                wire::encode_tagged4(0, to, denom, amount, reference, out)
            },
            Message::CreateGroup { name, members, contribution, policy, quorum } => {
                wire::encode_tagged5(1, name, members, contribution, policy, quorum, out)
            },
            Message::ContributeToGroup { group, amount } => {
                wire::encode_tagged2(2, group, amount, out)
            },
            Message::GroupPayout { group } => wire::encode_tagged(3, group, out),
            Message::RegisterName { name } => wire::encode_tagged(4, name, out),
            Message::RenewName { name } => wire::encode_tagged(5, name, out),
            Message::TransferName { name, to } => wire::encode_tagged2(6, name, to, out),
            Message::SetPrimaryAlias { name } => wire::encode_tagged(7, name, out),
            Message::AttestContact { commitment, address } => {
                wire::encode_tagged2(8, commitment, address, out)
            },
            Message::RequestRebind { commitment, new_address } => {
                wire::encode_tagged2(9, commitment, new_address, out)
            },
            Message::VetoRebind { commitment } => wire::encode_tagged(10, commitment, out),
            Message::RevokeContact { commitment } => wire::encode_tagged(11, commitment, out),
            Message::ClearPrimaryAlias => 12u8.encode(out),
            Message::ReleaseName { name } => wire::encode_tagged(13, name, out),
            Message::Bond { public_key, country, amount } => {
                wire::encode_tagged3(14, public_key, country, amount, out)
            },
            Message::AddStake { amount } => wire::encode_tagged(15, amount, out),
            Message::Unbond { amount } => wire::encode_tagged(16, amount, out),
            Message::WithdrawUnbonded => 17u8.encode(out),
            Message::ReportEquivocation { evidence } => wire::encode_tagged(18, &**evidence, out),
            Message::SetAccountFlag { flag, enabled } => {
                wire::encode_tagged2(19, flag, enabled, out)
            },
            Message::SetRegularKey { key } => wire::encode_tagged(20, key, out),
            Message::SetSignerList { list } => wire::encode_tagged(21, list, out),
            Message::ApplyRebind { commitment } => wire::encode_tagged(22, commitment, out),
        }
    }
}

impl Decode for Message {
    open spec fn parse(s: Seq<u8>) -> Parsed<MessageView> {
        u8::parse(s).and_then(
            |tag: u8, rest: Seq<u8>|
                if 0 <= tag <= 3 {
                    parse_value_message(tag, rest)
                } else if 4 <= tag <= 7 || 12 <= tag <= 13 {
                    parse_name_message(tag, rest)
                } else if 8 <= tag <= 11 || tag == 22 {
                    parse_contact_message(tag, rest)
                } else if 14 <= tag <= 17 {
                    parse_stake_message(tag, rest)
                } else if tag == 18 {
                    parse_evidence_message(tag, rest)
                } else if 19 <= tag <= 20 {
                    parse_account_message(tag, rest)
                } else if tag == 21 {
                    parse_signer_message(tag, rest)
                } else {
                    fault(CodecFault::UnknownDiscriminant { tag, what: "Message"@ }, rest)
                },
        )
    }

    fn decode(r: &mut Reader<'_>) -> (res: Result<Self, CodecError>) {
        let tag: u8 = u8::decode(r)?;
        match tag {
            0 | 1 | 2 | 3 => decode_value_message(tag, r),
            4 | 5 | 6 | 7 | 12 | 13 => decode_name_message(tag, r),
            8 | 9 | 10 | 11 | 22 => decode_contact_message(tag, r),
            14 | 15 | 16 | 17 => decode_stake_message(tag, r),
            18 => decode_evidence_message(tag, r),
            19 | 20 => decode_account_message(tag, r),
            21 => decode_signer_message(tag, r),
            _ => Err(CodecError::UnknownDiscriminant { tag, what: "Message" }),
        }
    }
}

impl Canonical for Message {
    open spec fn valid(v: MessageView) -> bool {
        let tag = message_tag(v);
        if 0 <= tag <= 3 {
            value_message_valid(v)
        } else if 4 <= tag <= 7 || 12 <= tag <= 13 {
            name_message_valid(v)
        } else if 8 <= tag <= 11 || tag == 22 {
            contact_message_valid(v)
        } else if 14 <= tag <= 17 {
            stake_message_valid(v)
        } else if tag == 18 {
            evidence_message_valid(v)
        } else if 19 <= tag <= 20 {
            account_message_valid(v)
        } else {
            signer_message_valid(v)
        }
    }

    proof fn round_trip(v: MessageView, tail: Seq<u8>) {
        let tag = message_tag(v);
        if 0 <= tag <= 3 {
            lemma_value_message_round_trip(v, tail);
        } else if 4 <= tag <= 7 || 12 <= tag <= 13 {
            lemma_name_message_round_trip(v, tail);
        } else if 8 <= tag <= 11 || tag == 22 {
            lemma_contact_message_round_trip(v, tail);
        } else if 14 <= tag <= 17 {
            lemma_stake_message_round_trip(v, tail);
        } else if tag == 18 {
            lemma_evidence_message_round_trip(v, tail);
        } else if 19 <= tag <= 20 {
            lemma_account_message_round_trip(v, tail);
        } else {
            lemma_signer_message_round_trip(v, tail);
        }
    }

    proof fn one_encoding(s: Seq<u8>) {
        if let Ok(tag) = u8::parse(s).value {
            lemma_value_message_has_one_encoding(tag, s);
            lemma_name_message_has_one_encoding(tag, s);
            lemma_contact_message_has_one_encoding(tag, s);
            lemma_stake_message_has_one_encoding(tag, s);
            lemma_evidence_message_has_one_encoding(tag, s);
            lemma_account_message_has_one_encoding(tag, s);
            lemma_signer_message_has_one_encoding(tag, s);
        }
    }
}

impl Encode for TxBody {
    open spec fn bytes_of(v: BodyView) -> Seq<u8> {
        <(ChainId, (Address, (u64, (Height, (Fee, (Vec<Message>, String))))))>::bytes_of(
            (v.chain_id, (v.sender, (v.nonce, (v.valid_until, (v.fee, (v.messages, v.memo))))))
        )
    }

    fn encode(&self, out: &mut Vec<u8>) {
        broadcast use wire::lemma_concat_assoc;

        self.chain_id.encode(out);
        self.sender.encode(out);
        self.nonce.encode(out);
        self.valid_until.encode(out);
        self.fee.encode(out);
        self.messages.encode(out);
        self.memo.encode(out);
    }
}

impl Decode for TxBody {
    open spec fn parse(s: Seq<u8>) -> Parsed<BodyView> {
        <(ChainId, (Address, (u64, (Height, (Fee, (Vec<Message>, String))))))>::parse(s).map(
            |t: (Seq<char>, (Address, (u64, (Height, (FeeView, (Seq<MessageView>, Seq<char>))))))|
                BodyView {
                    chain_id: t.0,
                    sender: t.1.0,
                    nonce: t.1.1.0,
                    valid_until: t.1.1.1.0,
                    fee: t.1.1.1.1.0,
                    messages: t.1.1.1.1.1.0,
                    memo: t.1.1.1.1.1.1,
                },
        )
    }

    fn decode(r: &mut Reader<'_>) -> (res: Result<Self, CodecError>) {
        let chain_id = ChainId::decode(r)?;
        let sender = Address::decode(r)?;
        let nonce: u64 = u64::decode(r)?;
        let valid_until = Height::decode(r)?;
        let fee = Fee::decode(r)?;
        let messages = Vec::<Message>::decode(r)?;
        let memo = String::decode(r)?;
        Ok(TxBody { chain_id, sender, nonce, valid_until, fee, messages, memo })
    }
}

impl Canonical for TxBody {
    open spec fn valid(v: BodyView) -> bool {
        <(ChainId, (Address, (u64, (Height, (Fee, (Vec<Message>, String))))))>::valid(
            (v.chain_id, (v.sender, (v.nonce, (v.valid_until, (v.fee, (v.messages, v.memo))))))
        )
    }

    proof fn round_trip(v: BodyView, tail: Seq<u8>) {
        <(ChainId, (Address, (u64, (Height, (Fee, (Vec<Message>, String))))))>::round_trip(
            (v.chain_id, (v.sender, (v.nonce, (v.valid_until, (v.fee, (v.messages, v.memo)))))),
            tail,
        );
    }

    proof fn one_encoding(s: Seq<u8>) {
        <(ChainId, (Address, (u64, (Height, (Fee, (Vec<Message>, String))))))>::one_encoding(s);
    }
}

impl Encode for TxSignature {
    open spec fn bytes_of(v: TxSigView) -> Seq<u8> {
        <(PublicKey, Signature)>::bytes_of((v.public_key, v.signature))
    }

    fn encode(&self, out: &mut Vec<u8>) {
        broadcast use wire::lemma_concat_assoc;

        self.public_key.encode(out);
        self.signature.encode(out);
    }
}

impl Decode for TxSignature {
    open spec fn parse(s: Seq<u8>) -> Parsed<TxSigView> {
        <(PublicKey, Signature)>::parse(s).map(
            |t: (Seq<u8>, Signature)|
                TxSigView { public_key: t.0, signature: t.1 },
        )
    }

    fn decode(r: &mut Reader<'_>) -> (res: Result<Self, CodecError>) {
        let public_key = PublicKey::decode(r)?;
        let signature = Signature::decode(r)?;
        Ok(TxSignature { public_key, signature })
    }
}

impl Canonical for TxSignature {
    open spec fn valid(v: TxSigView) -> bool {
        <(PublicKey, Signature)>::valid((v.public_key, v.signature))
    }

    proof fn round_trip(v: TxSigView, tail: Seq<u8>) {
        <(PublicKey, Signature)>::round_trip((v.public_key, v.signature), tail);
    }

    proof fn one_encoding(s: Seq<u8>) {
        <(PublicKey, Signature)>::one_encoding(s);
    }
}

impl Encode for Transaction {
    open spec fn bytes_of(v: TxView) -> Seq<u8> {
        <(TxBody, (Vec<TxSignature>, Vec<TxSignature>))>::bytes_of(
            (v.body, (v.signatures, v.sponsor_signatures))
        )
    }

    fn encode(&self, out: &mut Vec<u8>) {
        broadcast use wire::lemma_concat_assoc;

        self.body.encode(out);
        self.signatures.encode(out);
        self.sponsor_signatures.encode(out);
    }
}

impl Decode for Transaction {
    open spec fn parse(s: Seq<u8>) -> Parsed<TxView> {
        <(TxBody, (Vec<TxSignature>, Vec<TxSignature>))>::parse(s).map(
            |t: (BodyView, (Seq<TxSigView>, Seq<TxSigView>))|
                TxView { body: t.0, signatures: t.1.0, sponsor_signatures: t.1.1 },
        ).and_then(
            |tx: TxView, rest: Seq<u8>|
                match form_complaint(tx) {
                    None => Parsed { value: Ok(tx), rest },
                    Some(reason) => fault(CodecFault::Invalid(reason), rest),
                },
        )
    }

    fn decode(r: &mut Reader<'_>) -> (res: Result<Self, CodecError>) {
        let body = TxBody::decode(r)?;
        let signatures = Vec::<TxSignature>::decode(r)?;
        let sponsor_signatures = Vec::<TxSignature>::decode(r)?;
        if signatures.len() == 0 || signatures.len() > MAX_SIGNATURES {
            let mut reason = String::from_str("a transaction must carry 1..=32 signatures, got ");
            text::push_decimal(&mut reason, signatures.len() as u128);
            return Err(CodecError::Invalid(reason));
        }
        if sponsor_signatures.len() > MAX_SIGNATURES {
            let mut reason = String::from_str(
                "a transaction may carry at most 32 sponsor signatures, got ",
            );
            text::push_decimal(&mut reason, sponsor_signatures.len() as u128);
            return Err(CodecError::Invalid(reason));
        }
        let own = signatures.as_slice();
        let sponsor = sponsor_signatures.as_slice();
        assert(own.deep_view() =~= signatures.deep_view());
        assert(sponsor.deep_view() =~= sponsor_signatures.deep_view());
        if !is_sorted(own) || !is_sorted(sponsor) {
            return Err(
                CodecError::Invalid(
                    String::from_str(
                        "transaction signatures must be sorted by public key and unique",
                    ),
                ),
            );
        }
        Ok(Transaction { body, signatures, sponsor_signatures })
    }
}

impl Canonical for Transaction {
    open spec fn valid(v: TxView) -> bool {
        form_complaint(v) is None
            && <(TxBody, (Vec<TxSignature>, Vec<TxSignature>))>::valid(
                (v.body, (v.signatures, v.sponsor_signatures))
            )
    }

    proof fn round_trip(v: TxView, tail: Seq<u8>) {
        <(TxBody, (Vec<TxSignature>, Vec<TxSignature>))>::round_trip(
            (v.body, (v.signatures, v.sponsor_signatures)),
            tail,
        );
    }

    proof fn one_encoding(s: Seq<u8>) {
        <(TxBody, (Vec<TxSignature>, Vec<TxSignature>))>::one_encoding(s);
    }
}

} // verus!
