//! The view of every record.
//!
//! Contracts speak of records by their views. The laws here say that a view leaves nothing
//! out and moves nothing about.

use crate::bank::{BankError, BankFault};
use crate::chain::{Block, BlockHeader, TxReceipt};
use crate::chainstore::{StoreError, StoreFault};
use crate::consensus::{Commit, Equivocation, SignedVote, Validator, Vote};
use crate::pay::request::{Payee, PayeeView, PaymentRequest, RequestError, RequestFault};
use crate::primitives::codec::{CodecError, CodecFault};
use crate::primitives::error::{Error, Fault};
use crate::rpc::history::{HistoryError, HistoryFault};
use crate::rpc::query::{
    History, Query, QueryError, QueryFault, QueryView, Response, ResponseView, SignedHeader, Status,
};
use crate::staking::bond::Bond;
use crate::staking::error::{StakingError, StakingFault};
use crate::state::membership::{LeafView, Proof, ProofLeaf};
use crate::state::nodes::{Node, NodeView};
use crate::state::store::{StateError, StateFault};
use crate::types::account::{Account, AccountKind, KindView, Signer};
use crate::types::group::{Contribution, GroupAccount, PayoutPolicy, PolicyView};
use crate::types::tx::{
    Fee, Message, MessageView, Transaction, TxBody, TxError, TxFault, TxSignature,
};
use crate::witness::audit::Witness;
use crate::witness::error::{WitnessError, WitnessFault};
use crate::witness::head::{SignedTreeHead, TreeHead};
use crate::witness::policy::Checkpoint;
use vstd::prelude::*;

verus! {

/// The view of a bank error has every kind of it as it is.
pub proof fn law_the_view_of_a_bank_error(it: BankError)
    ensures
        it matches BankError::InsufficientBalance ==> it.deep_view() == (
            BankFault::InsufficientBalance
        ),
        it matches BankError::Overflow ==> it.deep_view() == (BankFault::Overflow),
        it matches BankError::SupplyTooSmall ==> it.deep_view() == (BankFault::SupplyTooSmall),
        it matches BankError::State(e) ==> it.deep_view() == (BankFault::State(e.deep_view())),
{
}

/// The view of a block header has every field of it as it is.
pub proof fn law_the_view_of_a_block_header(it: BlockHeader)
    ensures
        it.deep_view().chain_id == it.chain_id.deep_view(),
        it.deep_view().height == it.height.deep_view(),
        it.deep_view().time == it.time.deep_view(),
        it.deep_view().parent == it.parent.deep_view(),
        it.deep_view().tx_root == it.tx_root.deep_view(),
        it.deep_view().outcome_root == it.outcome_root.deep_view(),
        it.deep_view().app_hash == it.app_hash.deep_view(),
        it.deep_view().validators == it.validators.deep_view(),
{
}

/// The view of a block has every field of it as it is.
pub proof fn law_the_view_of_a_block(it: Block)
    ensures
        it.deep_view().header == it.header.deep_view(),
        it.deep_view().transactions == it.transactions.deep_view(),
{
}

/// The view of a tx receipt has every field of it as it is.
pub proof fn law_the_view_of_a_tx_receipt(it: TxReceipt)
    ensures
        it.deep_view().tx_id == it.tx_id.deep_view(),
        it.deep_view().links == it.links.deep_view(),
{
}

/// The view of a store error has every kind of it as it is.
pub proof fn law_the_view_of_a_store_error(it: StoreError)
    ensures
        it matches StoreError::Database(reason) ==> it.deep_view() == (
            StoreFault::Database(reason.deep_view())
        ),
        it matches StoreError::Corrupt { what, reason } ==> it.deep_view() == (
            StoreFault::Corrupt { what: what.deep_view(), reason: reason.deep_view() }
        ),
        it matches StoreError::NoGenesis ==> it.deep_view() == (StoreFault::NoGenesis),
        it matches StoreError::MissingBlock(height) ==> it.deep_view() == (
            StoreFault::MissingBlock(height.deep_view())
        ),
        it matches StoreError::Genesis(reason) ==> it.deep_view() == (
            StoreFault::Genesis(reason.deep_view())
        ),
        it matches StoreError::StateDivergence {
            height,
            computed,
            expected,
        } ==> it.deep_view() == (
            StoreFault::StateDivergence {
                height: height.deep_view(),
                computed: computed.deep_view(),
                expected: expected.deep_view(),
            }
        ),
{
}

/// The view of a vote has every field of it as it is.
pub proof fn law_the_view_of_a_vote(it: Vote)
    ensures
        it.deep_view().chain_id == it.chain_id.deep_view(),
        it.deep_view().height == it.height.deep_view(),
        it.deep_view().round == it.round.deep_view(),
        it.deep_view().vote_type == it.vote_type.deep_view(),
        it.deep_view().block_id == it.block_id.deep_view(),
        it.deep_view().validator == it.validator.deep_view(),
{
}

/// The view of a signed vote has every field of it as it is.
pub proof fn law_the_view_of_a_signed_vote(it: SignedVote)
    ensures
        it.deep_view().vote == it.vote.deep_view(),
        it.deep_view().signature == it.signature.deep_view(),
{
}

/// The view of an equivocation has every field of it as it is.
pub proof fn law_the_view_of_an_equivocation(it: Equivocation)
    ensures
        it.deep_view().validator == it.validator.deep_view(),
        it.deep_view().first == it.first.deep_view(),
        it.deep_view().second == it.second.deep_view(),
{
}

/// The view of a validator has every field of it as it is.
pub proof fn law_the_view_of_a_validator(it: Validator)
    ensures
        it.deep_view().public_key == it.public_key.deep_view(),
        it.deep_view().voting_power == it.voting_power.deep_view(),
        it.deep_view().country == it.country.deep_view(),
{
}

/// The view of a commit has every field of it as it is.
pub proof fn law_the_view_of_a_commit(it: Commit)
    ensures
        it.deep_view().height == it.height.deep_view(),
        it.deep_view().round == it.round.deep_view(),
        it.deep_view().block_id == it.block_id.deep_view(),
        it.deep_view().signatures == it.signatures.deep_view(),
{
}

/// The view of a request error has every kind of it as it is.
pub proof fn law_the_view_of_a_request_error(it: RequestError)
    ensures
        it matches RequestError::WrongScheme ==> it.deep_view() == (RequestFault::WrongScheme),
        it matches RequestError::BadRecipient ==> it.deep_view() == (RequestFault::BadRecipient),
        it matches RequestError::BadParameter(p) ==> it.deep_view() == (
            RequestFault::BadParameter(p@)
        ),
        it matches RequestError::BadDenom ==> it.deep_view() == (RequestFault::BadDenom),
        it matches RequestError::BadAmount ==> it.deep_view() == (RequestFault::BadAmount),
        it matches RequestError::TextTooLong ==> it.deep_view() == (RequestFault::TextTooLong),
        it matches RequestError::DuplicateParameter(p) ==> it.deep_view() == (
            RequestFault::DuplicateParameter(p@)
        ),
{
}

/// The view of a payee has every kind of it as it is.
pub proof fn law_the_view_of_a_payee(it: Payee)
    ensures
        it matches Payee::Address(a) ==> it.deep_view() == (PayeeView::Address(a)),
        it matches Payee::Name(n) ==> it.deep_view() == (PayeeView::Name(n@)),
{
}

/// The view of a payment request has every field of it as it is.
pub proof fn law_the_view_of_a_payment_request(it: PaymentRequest)
    ensures
        it.deep_view().payee == it.payee.deep_view(),
        it.deep_view().denom == it.denom@,
        it.deep_view().amount == it.amount,
        it.deep_view().reference == it.reference,
        it.deep_view().label == it.label.deep_view(),
        it.deep_view().note == it.note.deep_view(),
{
}

/// The view of a codec error has every kind of it as it is.
pub proof fn law_the_view_of_a_codec_error(it: CodecError)
    ensures
        it matches CodecError::UnexpectedEof { wanted, left } ==> it.deep_view() == (
            CodecFault::UnexpectedEof { wanted: wanted as nat, left: left as nat }
        ),
        it matches CodecError::LengthTooLarge { len } ==> it.deep_view() == (
            CodecFault::LengthTooLarge { len: len as nat }
        ),
        it matches CodecError::UnknownDiscriminant { tag, what } ==> it.deep_view() == (
            CodecFault::UnknownDiscriminant { tag, what: what@ }
        ),
        it matches CodecError::TrailingBytes { left } ==> it.deep_view() == (
            CodecFault::TrailingBytes { left: left as nat }
        ),
        it matches CodecError::Invalid(text) ==> it.deep_view() == (CodecFault::Invalid(text@)),
{
}

/// The view of an error has every kind of it as it is.
pub proof fn law_the_view_of_an_error(it: Error)
    ensures
        it matches Error::Codec(e) ==> it.deep_view() == (Fault::Codec(e.deep_view())),
        it matches Error::InvalidDenom { denom, reason } ==> it.deep_view() == (
            Fault::InvalidDenom { denom: denom@, reason: reason@ }
        ),
        it matches Error::InvalidChainId { id, reason } ==> it.deep_view() == (
            Fault::InvalidChainId { id: id@, reason: reason@ }
        ),
        it matches Error::Invalid { what } ==> it.deep_view() == (Fault::Invalid { what: what@ }),
        it matches Error::Overflow { op } ==> it.deep_view() == (Fault::Overflow { op: op@ }),
{
}

/// The view of a history error has every kind of it as it is.
pub proof fn law_the_view_of_a_history_error(it: HistoryError)
    ensures
        it matches HistoryError::Finished ==> it.deep_view() == (HistoryFault::Finished),
        it matches HistoryError::WrongTransaction { expected, got } ==> it.deep_view() == (
            HistoryFault::WrongTransaction { expected: expected.deep_view(), got: got.deep_view() }
        ),
        it matches HistoryError::WrongHeight { expected, got } ==> it.deep_view() == (
            HistoryFault::WrongHeight { expected: expected.deep_view(), got: got.deep_view() }
        ),
        it matches HistoryError::BrokenChain ==> it.deep_view() == (HistoryFault::BrokenChain),
        it matches HistoryError::Verification(e) ==> it.deep_view() == (
            HistoryFault::Verification(e)
        ),
{
}

/// The view of a query error has every kind of it as it is.
pub proof fn law_the_view_of_a_query_error(it: QueryError)
    ensures
        it matches QueryError::NoSuchHeight(height) ==> it.deep_view() == (
            QueryFault::NoSuchHeight(height.deep_view())
        ),
        it matches QueryError::NoCommit(height) ==> it.deep_view() == (
            QueryFault::NoCommit(height.deep_view())
        ),
        it matches QueryError::NoSuchTransaction(id) ==> it.deep_view() == (
            QueryFault::NoSuchTransaction(id.deep_view())
        ),
        it matches QueryError::NotIndexed(what) ==> it.deep_view() == (
            QueryFault::NotIndexed(what.deep_view())
        ),
        it matches QueryError::Backend(reason) ==> it.deep_view() == (
            QueryFault::Backend(reason.deep_view())
        ),
{
}

/// The view of a query has every kind of it as it is.
pub proof fn law_the_view_of_a_query(it: Query)
    ensures
        it matches Query::Status ==> it.deep_view() == (QueryView::Status),
        it matches Query::Header { height } ==> it.deep_view() == (
            QueryView::Header { height: height.deep_view() }
        ),
        it matches Query::Balance { address, denom } ==> it.deep_view() == (
            QueryView::Balance { address: address.deep_view(), denom: denom.deep_view() }
        ),
        it matches Query::Account { address } ==> it.deep_view() == (
            QueryView::Account { address: address.deep_view() }
        ),
        it matches Query::Supply { denom } ==> it.deep_view() == (
            QueryView::Supply { denom: denom.deep_view() }
        ),
        it matches Query::Issuer { denom } ==> it.deep_view() == (
            QueryView::Issuer { denom: denom.deep_view() }
        ),
        it matches Query::Frozen { denom, address } ==> it.deep_view() == (
            QueryView::Frozen { denom: denom.deep_view(), address: address.deep_view() }
        ),
        it matches Query::ResolveName { name } ==> it.deep_view() == (
            QueryView::ResolveName { name: name.deep_view() }
        ),
        it matches Query::ResolveContact { commitment } ==> it.deep_view() == (
            QueryView::ResolveContact { commitment: commitment.deep_view() }
        ),
        it matches Query::PrimaryAlias { address } ==> it.deep_view() == (
            QueryView::PrimaryAlias { address: address.deep_view() }
        ),
        it matches Query::Block { height } ==> it.deep_view() == (
            QueryView::Block { height: height.deep_view() }
        ),
        it matches Query::Transaction { id } ==> it.deep_view() == (
            QueryView::Transaction { id: id.deep_view() }
        ),
        it matches Query::History { address, from, limit } ==> it.deep_view() == (
            QueryView::History {
                address: address.deep_view(),
                from: from.deep_view(),
                limit: limit.deep_view(),
            }
        ),
{
}

/// The view of a signed header has every field of it as it is.
pub proof fn law_the_view_of_a_signed_header(it: SignedHeader)
    ensures
        it.deep_view().header == it.header.deep_view(),
        it.deep_view().commit == it.commit.deep_view(),
{
}

/// The view of a status has every field of it as it is.
pub proof fn law_the_view_of_a_status(it: Status)
    ensures
        it.deep_view().chain_id == it.chain_id.deep_view(),
        it.deep_view().tip == it.tip.deep_view(),
{
}

/// The view of a response has every kind of it as it is.
pub proof fn law_the_view_of_a_response(it: Response)
    ensures
        it matches Response::Status(status) ==> it.deep_view() == (
            ResponseView::Status(status.deep_view())
        ),
        it matches Response::Header(header) ==> it.deep_view() == (
            ResponseView::Header(header.deep_view())
        ),
        it matches Response::Value(value) ==> it.deep_view() == (
            ResponseView::Value(value.deep_view())
        ),
        it matches Response::Block(block) ==> it.deep_view() == (
            ResponseView::Block(block.deep_view())
        ),
        it matches Response::Transaction(proved) ==> it.deep_view() == (
            ResponseView::Transaction(proved.deep_view())
        ),
        it matches Response::History(history) ==> it.deep_view() == (
            ResponseView::History(history.deep_view())
        ),
{
}

/// The view of a bond has every field of it as it is.
pub proof fn law_the_view_of_a_bond(it: Bond)
    ensures
        it.deep_view().operator == it.operator.deep_view(),
        it.deep_view().public_key == it.public_key.deep_view(),
        it.deep_view().country == it.country.deep_view(),
        it.deep_view().bonded == it.bonded.deep_view(),
        it.deep_view().jailed == it.jailed.deep_view(),
        it.deep_view().jailed_at == it.jailed_at.deep_view(),
{
}

/// The view of a staking error has every kind of it as it is.
pub proof fn law_the_view_of_a_staking_error(it: StakingError)
    ensures
        it matches StakingError::BelowMinimumBond { got, min } ==> it.deep_view() == (
            StakingFault::BelowMinimumBond { got: got.deep_view(), min: min.deep_view() }
        ),
        it matches StakingError::NoSuchBond ==> it.deep_view() == (StakingFault::NoSuchBond),
        it matches StakingError::AlreadyBonded ==> it.deep_view() == (StakingFault::AlreadyBonded),
        it matches StakingError::InsufficientBond { requested, bonded } ==> it.deep_view() == (
            StakingFault::InsufficientBond {
                requested: requested.deep_view(),
                bonded: bonded.deep_view(),
            }
        ),
        it matches StakingError::TooManyUnbondingEntries ==> it.deep_view() == (
            StakingFault::TooManyUnbondingEntries
        ),
        it matches StakingError::CandidateSetFull ==> it.deep_view() == (
            StakingFault::CandidateSetFull
        ),
        it matches StakingError::NothingMatured ==> it.deep_view() == (
            StakingFault::NothingMatured
        ),
        it matches StakingError::NoEligibleValidators ==> it.deep_view() == (
            StakingFault::NoEligibleValidators
        ),
        it matches StakingError::NotEquivocation ==> it.deep_view() == (
            StakingFault::NotEquivocation
        ),
        it matches StakingError::AlreadyJailed ==> it.deep_view() == (StakingFault::AlreadyJailed),
        it matches StakingError::ZeroAmount ==> it.deep_view() == (StakingFault::ZeroAmount),
        it matches StakingError::Bank(e) ==> it.deep_view() == (StakingFault::Bank(e.deep_view())),
        it matches StakingError::State(e) ==> it.deep_view() == (
            StakingFault::State(e.deep_view())
        ),
{
}

/// The view of a proof leaf has every kind of it as it is.
pub proof fn law_the_view_of_a_proof_leaf(it: ProofLeaf)
    ensures
        it matches ProofLeaf::Present { value } ==> it.deep_view() == (
            LeafView::Present { value: value@ }
        ),
        it matches ProofLeaf::Absent ==> it.deep_view() == (LeafView::Absent),
        it matches ProofLeaf::AbsentOccupied { other_key_hash, other_value } ==> it.deep_view() == (
            LeafView::AbsentOccupied { other_key_hash, other_value: other_value@ }
        ),
{
}

/// The view of a proof has every field of it as it is.
pub proof fn law_the_view_of_a_proof(it: Proof)
    ensures
        it.deep_view().siblings == it.siblings@,
        it.deep_view().leaf == it.leaf.deep_view(),
{
}

/// The view of a node has every kind of it as it is.
pub proof fn law_the_view_of_a_node(it: Node)
    ensures
        it matches Node::Leaf { key_hash, value } ==> it.deep_view() == (
            NodeView::Leaf { key_hash, value: value@ }
        ),
        it matches Node::Internal { left, right } ==> it.deep_view() == (
            NodeView::Internal { left, right }
        ),
{
}

/// The view of a state error has every kind of it as it is.
pub proof fn law_the_view_of_a_state_error(it: StateError)
    ensures
        it matches StateError::Corrupt { key, reason } ==> it.deep_view() == (
            StateFault::Corrupt { key: key@, reason: reason@ }
        ),
{
}

/// The view of a signer has every field of it as it is.
pub proof fn law_the_view_of_a_signer(it: Signer)
    ensures
        it.deep_view().key == it.key.deep_view(),
        it.deep_view().weight == it.weight.deep_view(),
{
}

/// The view of an account kind has every kind of it as it is.
pub proof fn law_the_view_of_an_account_kind(it: AccountKind)
    ensures
        it matches AccountKind::Individual { public_key } ==> it.deep_view() == (
            KindView::Individual { public_key: public_key.deep_view() }
        ),
        it matches AccountKind::Group(group) ==> it.deep_view() == (
            KindView::Group(group.deep_view())
        ),
        it matches AccountKind::Module { name } ==> it.deep_view() == (
            KindView::Module { name: name.deep_view() }
        ),
{
}

/// The view of an account has every field of it as it is.
pub proof fn law_the_view_of_an_account(it: Account)
    ensures
        it.deep_view().address == it.address.deep_view(),
        it.deep_view().nonce == it.nonce.deep_view(),
        it.deep_view().kind == it.kind.deep_view(),
        it.deep_view().last_txn == it.last_txn.deep_view(),
        it.deep_view().flags == it.flags.deep_view(),
        it.deep_view().regular_key == it.regular_key.deep_view(),
        it.deep_view().signers == it.signers.deep_view(),
{
}

/// The view of a payout policy has every kind of it as it is.
pub proof fn law_the_view_of_a_payout_policy(it: PayoutPolicy)
    ensures
        it matches PayoutPolicy::Rotation { order, next } ==> it.deep_view() == (
            PolicyView::Rotation { order: order.deep_view(), next: next.deep_view() }
        ),
        it matches PayoutPolicy::Accumulate ==> it.deep_view() == (PolicyView::Accumulate),
{
}

/// The view of a contribution has every field of it as it is.
pub proof fn law_the_view_of_a_contribution(it: Contribution)
    ensures
        it.deep_view().amount == it.amount.deep_view(),
        it.deep_view().denom == it.denom.deep_view(),
        it.deep_view().period_blocks == it.period_blocks.deep_view(),
{
}

/// The view of a group account has every field of it as it is.
pub proof fn law_the_view_of_a_group_account(it: GroupAccount)
    ensures
        it.deep_view().name == it.name.deep_view(),
        it.deep_view().members == it.members.deep_view(),
        it.deep_view().contribution == it.contribution.deep_view(),
        it.deep_view().policy == it.policy.deep_view(),
        it.deep_view().quorum == it.quorum.deep_view(),
        it.deep_view().cycle == it.cycle.deep_view(),
        it.deep_view().cycle_started == it.cycle_started.deep_view(),
{
}

/// The view of a tx error has every kind of it as it is.
pub proof fn law_the_view_of_a_tx_error(it: TxError)
    ensures
        it matches TxError::InvalidSignature ==> it.deep_view() == (TxFault::InvalidSignature),
        it matches TxError::SignatureCount(n) ==> it.deep_view() == (
            TxFault::SignatureCount(n.deep_view())
        ),
        it matches TxError::UnsortedSignatures ==> it.deep_view() == (TxFault::UnsortedSignatures),
        it matches TxError::SponsorSignatureMismatch ==> it.deep_view() == (
            TxFault::SponsorSignatureMismatch
        ),
        it matches TxError::SelfSponsored ==> it.deep_view() == (TxFault::SelfSponsored),
        it matches TxError::WrongChain { signed, expected } ==> it.deep_view() == (
            TxFault::WrongChain { signed: signed.deep_view(), expected: expected.deep_view() }
        ),
        it matches TxError::Expired { valid_until, current } ==> it.deep_view() == (
            TxFault::Expired { valid_until: valid_until.deep_view(), current: current.deep_view() }
        ),
        it matches TxError::MessageCount(n) ==> it.deep_view() == (
            TxFault::MessageCount(n.deep_view())
        ),
        it matches TxError::MemoTooLong ==> it.deep_view() == (TxFault::MemoTooLong),
        it matches TxError::ZeroAmount ==> it.deep_view() == (TxFault::ZeroAmount),
        it matches TxError::ZeroFee ==> it.deep_view() == (TxFault::ZeroFee),
        it matches TxError::Crypto(e) ==> it.deep_view() == (TxFault::Crypto(e.deep_view())),
{
}

/// The view of a fee has every field of it as it is.
pub proof fn law_the_view_of_a_fee(it: Fee)
    ensures
        it.deep_view().amount == it.amount.deep_view(),
        it.deep_view().denom == it.denom.deep_view(),
        it.deep_view().payer == it.payer.deep_view(),
{
}

/// The view of a message has every kind of it as it is.
pub proof fn law_the_view_of_a_message(it: Message)
    ensures
        it matches Message::Transfer { to, denom, amount, reference } ==> it.deep_view() == (
            MessageView::Transfer {
                to: to.deep_view(),
                denom: denom.deep_view(),
                amount: amount.deep_view(),
                reference: reference.deep_view(),
            }
        ),
        it matches Message::CreateGroup {
            name,
            members,
            contribution,
            policy,
            quorum,
        } ==> it.deep_view() == (
            MessageView::CreateGroup {
                name: name.deep_view(),
                members: members.deep_view(),
                contribution: contribution.deep_view(),
                policy: policy.deep_view(),
                quorum: quorum.deep_view(),
            }
        ),
        it matches Message::ContributeToGroup { group, amount } ==> it.deep_view() == (
            MessageView::ContributeToGroup { group: group.deep_view(), amount: amount.deep_view() }
        ),
        it matches Message::GroupPayout { group } ==> it.deep_view() == (
            MessageView::GroupPayout { group: group.deep_view() }
        ),
        it matches Message::RegisterName { name } ==> it.deep_view() == (
            MessageView::RegisterName { name: name.deep_view() }
        ),
        it matches Message::RenewName { name } ==> it.deep_view() == (
            MessageView::RenewName { name: name.deep_view() }
        ),
        it matches Message::TransferName { name, to } ==> it.deep_view() == (
            MessageView::TransferName { name: name.deep_view(), to: to.deep_view() }
        ),
        it matches Message::SetPrimaryAlias { name } ==> it.deep_view() == (
            MessageView::SetPrimaryAlias { name: name.deep_view() }
        ),
        it matches Message::AttestContact { commitment, address } ==> it.deep_view() == (
            MessageView::AttestContact {
                commitment: commitment.deep_view(),
                address: address.deep_view(),
            }
        ),
        it matches Message::RequestRebind { commitment, new_address } ==> it.deep_view() == (
            MessageView::RequestRebind {
                commitment: commitment.deep_view(),
                new_address: new_address.deep_view(),
            }
        ),
        it matches Message::VetoRebind { commitment } ==> it.deep_view() == (
            MessageView::VetoRebind { commitment: commitment.deep_view() }
        ),
        it matches Message::RevokeContact { commitment } ==> it.deep_view() == (
            MessageView::RevokeContact { commitment: commitment.deep_view() }
        ),
        it matches Message::ClearPrimaryAlias ==> it.deep_view() == (
            MessageView::ClearPrimaryAlias
        ),
        it matches Message::ReleaseName { name } ==> it.deep_view() == (
            MessageView::ReleaseName { name: name.deep_view() }
        ),
        it matches Message::Bond { public_key, country, amount } ==> it.deep_view() == (
            MessageView::Bond {
                public_key: public_key.deep_view(),
                country: country.deep_view(),
                amount: amount.deep_view(),
            }
        ),
        it matches Message::AddStake { amount } ==> it.deep_view() == (
            MessageView::AddStake { amount: amount.deep_view() }
        ),
        it matches Message::Unbond { amount } ==> it.deep_view() == (
            MessageView::Unbond { amount: amount.deep_view() }
        ),
        it matches Message::WithdrawUnbonded ==> it.deep_view() == (MessageView::WithdrawUnbonded),
        it matches Message::ReportEquivocation { evidence } ==> it.deep_view() == (
            MessageView::ReportEquivocation { evidence: evidence.deep_view() }
        ),
        it matches Message::SetAccountFlag { flag, enabled } ==> it.deep_view() == (
            MessageView::SetAccountFlag { flag: flag.deep_view(), enabled: enabled.deep_view() }
        ),
        it matches Message::SetRegularKey { key } ==> it.deep_view() == (
            MessageView::SetRegularKey { key: key.deep_view() }
        ),
        it matches Message::SetSignerList { list } ==> it.deep_view() == (
            MessageView::SetSignerList { list: list.deep_view() }
        ),
        it matches Message::ApplyRebind { commitment } ==> it.deep_view() == (
            MessageView::ApplyRebind { commitment: commitment.deep_view() }
        ),
{
}

/// The view of a tx body has every field of it as it is.
pub proof fn law_the_view_of_a_tx_body(it: TxBody)
    ensures
        it.deep_view().chain_id == it.chain_id.deep_view(),
        it.deep_view().sender == it.sender.deep_view(),
        it.deep_view().nonce == it.nonce.deep_view(),
        it.deep_view().valid_until == it.valid_until.deep_view(),
        it.deep_view().fee == it.fee.deep_view(),
        it.deep_view().messages == it.messages.deep_view(),
        it.deep_view().memo == it.memo.deep_view(),
{
}

/// The view of a tx signature has every field of it as it is.
pub proof fn law_the_view_of_a_tx_signature(it: TxSignature)
    ensures
        it.deep_view().public_key == it.public_key.deep_view(),
        it.deep_view().signature == it.signature.deep_view(),
{
}

/// The view of a transaction has every field of it as it is.
pub proof fn law_the_view_of_a_transaction(it: Transaction)
    ensures
        it.deep_view().body == it.body.deep_view(),
        it.deep_view().signatures == it.signatures.deep_view(),
        it.deep_view().sponsor_signatures == it.sponsor_signatures.deep_view(),
{
}

/// The view of a witness has every field of it as it is.
pub proof fn law_the_view_of_a_witness(it: Witness)
    ensures
        it.deep_view().log == it.log,
        it.deep_view().key == it.key@,
        it.deep_view().country == it.country,
        it.deep_view().name == it.name@,
{
}

/// The view of a witness error has every kind of it as it is.
pub proof fn law_the_view_of_a_witness_error(it: WitnessError)
    ensures
        it matches WitnessError::UnknownWitness ==> it.deep_view() == (
            WitnessFault::UnknownWitness
        ),
        it matches WitnessError::BadSignature ==> it.deep_view() == (WitnessFault::BadSignature),
        it matches WitnessError::LogMismatch ==> it.deep_view() == (WitnessFault::LogMismatch),
        it matches WitnessError::WrongChain { got, expected } ==> it.deep_view() == (
            WitnessFault::WrongChain { got: got.deep_view(), expected: expected.deep_view() }
        ),
        it matches WitnessError::NonMonotonic { got, last } ==> it.deep_view() == (
            WitnessFault::NonMonotonic { got: got.deep_view(), last: last.deep_view() }
        ),
        it matches WitnessError::IndexOutOfRange ==> it.deep_view() == (
            WitnessFault::IndexOutOfRange
        ),
        it matches WitnessError::SizeMismatch { got, expected } ==> it.deep_view() == (
            WitnessFault::SizeMismatch { got: got.deep_view(), expected: expected.deep_view() }
        ),
        it matches WitnessError::BadInclusionProof ==> it.deep_view() == (
            WitnessFault::BadInclusionProof
        ),
        it matches WitnessError::BadConsistencyProof ==> it.deep_view() == (
            WitnessFault::BadConsistencyProof
        ),
        it matches WitnessError::SplitView { height } ==> it.deep_view() == (
            WitnessFault::SplitView { height: height.deep_view() }
        ),
        it matches WitnessError::NotCorroborated {
            witnesses,
            countries,
            need_witnesses,
            need_countries,
        } ==> it.deep_view() == (
            WitnessFault::NotCorroborated {
                witnesses: witnesses.deep_view(),
                countries: countries.deep_view(),
                need_witnesses: need_witnesses.deep_view(),
                need_countries: need_countries.deep_view(),
            }
        ),
        it matches WitnessError::EmptyWitnessSet ==> it.deep_view() == (
            WitnessFault::EmptyWitnessSet
        ),
        it matches WitnessError::DuplicateWitness ==> it.deep_view() == (
            WitnessFault::DuplicateWitness
        ),
        it matches WitnessError::NotEquivocation ==> it.deep_view() == (
            WitnessFault::NotEquivocation
        ),
{
}

/// The view of a tree head has every field of it as it is.
pub proof fn law_the_view_of_a_tree_head(it: TreeHead)
    ensures
        it.deep_view().log == it.log.deep_view(),
        it.deep_view().chain_id == it.chain_id.deep_view(),
        it.deep_view().size == it.size.deep_view(),
        it.deep_view().root == it.root.deep_view(),
        it.deep_view().signed_at == it.signed_at.deep_view(),
{
}

/// The view of a signed tree head has every field of it as it is.
pub proof fn law_the_view_of_a_signed_tree_head(it: SignedTreeHead)
    ensures
        it.deep_view().head == it.head.deep_view(),
        it.deep_view().signature == it.signature.deep_view(),
{
}

/// The view of a witness's equivocation has every field of it as it is.
pub proof fn law_the_view_of_a_witness_equivocation(it: crate::witness::head::Equivocation)
    ensures
        it.deep_view().a == it.a.deep_view(),
        it.deep_view().b == it.b.deep_view(),
{
}

/// The view of a checkpoint has every field of it as it is.
pub proof fn law_the_view_of_a_checkpoint(it: Checkpoint)
    ensures
        it.deep_view().chain_id == it.chain_id.deep_view(),
        it.deep_view().height == it.height.deep_view(),
        it.deep_view().block_id == it.block_id.deep_view(),
{
}

} // verus!
