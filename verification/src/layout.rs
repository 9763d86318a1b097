//! The bytes of every record, field by field.
//!
//! What is hashed, signed, stored and sent is the canonical encoding, so the order of the
//! fields and the byte that tells one variant from another are part of what the network
//! agrees on. Numbers, texts and lists are fixed in [`crate::primitives::forms`].

use crate::alias::{valid_username, ContactCommitment, Username};
use crate::chain::{
    block_bytes, block_valid, header_bytes, header_valid, receipt_bytes, receipt_valid, Block,
    BlockHeader, BlockHeaderView, BlockView, Link, ReceiptView, TxReceipt,
};
use crate::consensus::{
    signed_vote_bytes, signed_vote_valid, Commit, CommitView, Equivocation, EquivocationView,
    SignedVote, SignedVoteView, Validator, ValidatorView, Vote, VoteType, VoteView,
};
use crate::crypto::address::Address;
use crate::crypto::hash::Hash32;
use crate::crypto::keys::{decompresses, PublicKey, Signature};
use crate::pay::reference::PaymentReference;
use crate::primitives::amount::Amount;
use crate::primitives::codec::{Canonical, CodecFault, Decode, Encode};
use crate::primitives::country::{valid_country, CountryCode};
use crate::primitives::denom::{denom_complaint, Denom};
use crate::primitives::error::Fault;
use crate::primitives::forms::law_numbers_are_little_endian;
use crate::primitives::ids::{chain_id_complaint, ChainId, Height, Round, Timestamp};
use crate::primitives::order::lex_less;
use crate::primitives::text;
use crate::primitives::wire::law_blob_is_the_encoding_of_a_byte_list;
use crate::rpc::query::{
    history_bytes, history_valid, proved_tx_bytes, proved_tx_valid, proved_value_bytes,
    proved_value_valid, signed_header_bytes, signed_header_valid, status_bytes, status_valid,
    History, HistoryEntry, HistoryView, ProvedTransaction, ProvedTxView, ProvedValue,
    ProvedValueView, Query, QueryView, Response, ResponseView, SignedHeader, SignedHeaderView,
    Status, StatusView,
};
use crate::staking::bond::{Bond, BondView, Unbonding};
use crate::state::membership::{LeafView, Proof, ProofLeaf, ProofView};
use crate::state::nodes::{Node, NodeView};
use crate::types::account::{
    law_every_flag_has_its_bit, signer_complaint, Account, AccountFlag, AccountFlags, AccountKind,
    AccountView, KindView, Signer, SignerList, SignerView, SignersView, TxPointer,
};
use crate::types::group::{
    Contribution, ContributionView, FoundingMember, GroupAccount, GroupView, Member, PayoutPolicy,
    PolicyView, Quorum, Role,
};
use crate::types::tx::{
    account_message_bytes, account_message_valid, contact_message_bytes, contact_message_valid,
    evidence_message_bytes, evidence_message_valid, form_complaint, name_message_bytes,
    name_message_valid, signer_message_bytes, signer_message_valid, stake_message_bytes,
    stake_message_valid, value_message_bytes, value_message_valid, BodyView, Fee, FeeView, Message,
    MessageView, Transaction, TxBody, TxSigView, TxSignature, TxView,
};
use crate::witness::head::{HeadView, LogId, SignedHeadView, SignedTreeHead, TreeHead};
use crate::witness::log::LogEntry;
use crate::witness::policy::{Checkpoint, CheckpointView};
use vstd::prelude::*;
use vstd::utf8::encode_utf8;

verus! {

proof fn lemma_tags()
    ensures
        forall|n: u8| #[trigger] u8::bytes_of(n) == seq![n],
{
    assert forall|n: u8| #[trigger] u8::bytes_of(n) == seq![n] by {
        law_numbers_are_little_endian(n, 0, 0, 0, 0, 0);
    }
}

/// The bytes of a value that is one number, one text or bytes of a fixed length: those of
/// the number, those of the text, and the bytes themselves.
pub proof fn law_the_bytes_of_plain_values(
    a: Address,
    h: Hash32,
    k: Seq<u8>,
    s: Seq<char>,
    n: u64,
    m: u32,
    u: u128,
    g: Signature,
    l: LogId,
)
    ensures
        Address::bytes_of(a) ==
            a.0@,
        Hash32::bytes_of(h) ==
            h.0@,
        PublicKey::bytes_of(k) ==
            k,
        CountryCode::bytes_of(k) ==
            k,
        Signature::bytes_of(g) ==
            g.0@,
        LogId::bytes_of(l) ==
            l@.0@,
        ContactCommitment::bytes_of(ContactCommitment(h)) ==
            h.0@,
        Denom::bytes_of(s) ==
            String::bytes_of(s),
        ChainId::bytes_of(s) ==
            String::bytes_of(s),
        Username::bytes_of(s) ==
            String::bytes_of(s),
        Height::bytes_of(Height(n)) ==
            u64::bytes_of(n),
        Timestamp::bytes_of(Timestamp(n)) ==
            u64::bytes_of(n),
        Round::bytes_of(Round(m)) ==
            u32::bytes_of(m),
        Amount::bytes_of(Amount(u)) ==
            u128::bytes_of(u),
        PaymentReference::bytes_of(PaymentReference(n)) ==
            u64::bytes_of(n),
        AccountFlags::bytes_of(m) ==
            u32::bytes_of(m),
        AccountFlag::bytes_of(AccountFlag::RequireReference) ==
            u32::bytes_of(1),
        AccountFlag::bytes_of(AccountFlag::MasterKeyDisabled) ==
            u32::bytes_of(2),
        Role::bytes_of(Role::Treasurer) ==
            seq![0u8],
        Role::bytes_of(Role::Member) ==
            seq![1u8],
        VoteType::bytes_of(VoteType::Prevote) ==
            seq![0u8],
        VoteType::bytes_of(VoteType::Precommit) ==
            seq![1u8],
{
    lemma_tags();
}

/// The bytes of a vote, of a signed vote, of evidence, of a validator and of a commit: their
/// fields, in this order.
pub proof fn law_the_bytes_of_votes(
    v: VoteView,
    s: SignedVoteView,
    e: EquivocationView,
    d: ValidatorView,
    c: CommitView,
)
    ensures
        Vote::bytes_of(v) ==
            ChainId::bytes_of(v.chain_id)
            + (Height::bytes_of(v.height)
            + (Round::bytes_of(v.round)
            + (VoteType::bytes_of(v.vote_type)
            + (Option::<Hash32>::bytes_of(v.block_id)
            + Address::bytes_of(v.validator))))),
        SignedVote::bytes_of(s) ==
            Vote::bytes_of(s.vote)
            + Signature::bytes_of(s.signature),
        Equivocation::bytes_of(e) ==
            Address::bytes_of(e.validator)
            + (SignedVote::bytes_of(e.first)
            + SignedVote::bytes_of(e.second)),
        Validator::bytes_of(d) ==
            PublicKey::bytes_of(d.public_key)
            + (u64::bytes_of(d.voting_power)
            + CountryCode::bytes_of(d.country)),
        Commit::bytes_of(c) ==
            Height::bytes_of(c.height)
            + (Round::bytes_of(c.round)
            + (Hash32::bytes_of(c.block_id)
            + Vec::<SignedVote>::bytes_of(c.signatures))),
{
    lemma_tags();
    reveal(signed_vote_bytes);
}

/// The bytes of a header, of a block, of a link and of a receipt: their fields, in this
/// order.
pub proof fn law_the_bytes_of_blocks(
    h: BlockHeaderView,
    b: BlockView,
    l: Link,
    r: ReceiptView,
)
    ensures
        BlockHeader::bytes_of(h) ==
            ChainId::bytes_of(h.chain_id)
            + (Height::bytes_of(h.height)
            + (Timestamp::bytes_of(h.time)
            + (Hash32::bytes_of(h.parent)
            + (Hash32::bytes_of(h.tx_root)
            + (Hash32::bytes_of(h.outcome_root)
            + (Hash32::bytes_of(h.app_hash)
            + Hash32::bytes_of(h.validators))))))),
        Block::bytes_of(b) ==
            BlockHeader::bytes_of(b.header)
            + Vec::<Transaction>::bytes_of(b.transactions),
        Link::bytes_of(l) ==
            Address::bytes_of(l.address)
            + Option::<TxPointer>::bytes_of(l.previous),
        TxReceipt::bytes_of(r) ==
            Hash32::bytes_of(r.tx_id)
            + Vec::<Link>::bytes_of(r.links),
{
    lemma_tags();
    reveal(header_bytes);
    reveal(block_bytes);
    reveal(receipt_bytes);
}

/// The bytes of an account and of what it is made of: their fields, in this order, and for
/// the kind of account a byte that tells it before what it holds.
pub proof fn law_the_bytes_of_accounts(
    a: AccountView,
    s: SignerView,
    l: SignersView,
    p: TxPointer,
    k: Option<Seq<u8>>,
    g: GroupView,
    n: Seq<char>,
)
    ensures
        TxPointer::bytes_of(p) ==
            Hash32::bytes_of(p.tx_id)
            + Height::bytes_of(p.height),
        Signer::bytes_of(s) ==
            PublicKey::bytes_of(s.key)
            + u32::bytes_of(s.weight),
        SignerList::bytes_of(l) ==
            Vec::<Signer>::bytes_of(l.signers)
            + u32::bytes_of(l.quorum),
        AccountKind::bytes_of(KindView::Individual { public_key: k }) ==
            seq![0u8]
            + Option::<PublicKey>::bytes_of(k),
        AccountKind::bytes_of(KindView::Group(g)) ==
            seq![1u8]
            + GroupAccount::bytes_of(g),
        AccountKind::bytes_of(KindView::Module { name: n }) ==
            seq![2u8]
            + String::bytes_of(n),
        Account::bytes_of(a) ==
            Address::bytes_of(a.address)
            + (u64::bytes_of(a.nonce)
            + (AccountKind::bytes_of(a.kind)
            + (Option::<TxPointer>::bytes_of(a.last_txn)
            + (AccountFlags::bytes_of(a.flags)
            + (Option::<PublicKey>::bytes_of(a.regular_key)
            + Option::<SignerList>::bytes_of(a.signers)))))),
{
    lemma_tags();
}

/// The bytes of a group and of what it is made of: their fields, in this order, and for the
/// policy a byte that tells it before what it holds.
pub proof fn law_the_bytes_of_groups(
    g: GroupView,
    m: Member,
    f: FoundingMember,
    c: ContributionView,
    q: Quorum,
    order: Seq<Address>,
    next: u32,
)
    ensures
        FoundingMember::bytes_of(f) ==
            Address::bytes_of(f.address)
            + Role::bytes_of(f.role),
        Member::bytes_of(m) ==
            Address::bytes_of(m.address)
            + (Role::bytes_of(m.role)
            + (u64::bytes_of(m.joined_cycle)
            + (u64::bytes_of(m.contributions_made)
            + (u64::bytes_of(m.contributions_missed)
            + Option::<u64>::bytes_of(m.last_paid_cycle))))),
        Contribution::bytes_of(c) ==
            Amount::bytes_of(c.amount)
            + (Denom::bytes_of(c.denom)
            + u64::bytes_of(c.period_blocks)),
        Quorum::bytes_of(q) ==
            u32::bytes_of(q.numerator)
            + u32::bytes_of(q.denominator),
        PayoutPolicy::bytes_of(PolicyView::Rotation { order, next }) ==
            seq![0u8]
            + (Vec::<Address>::bytes_of(order)
            + u32::bytes_of(next)),
        PayoutPolicy::bytes_of(PolicyView::Accumulate) ==
            seq![1u8],
        GroupAccount::bytes_of(g) ==
            String::bytes_of(g.name)
            + (Vec::<Member>::bytes_of(g.members)
            + (Contribution::bytes_of(g.contribution)
            + (PayoutPolicy::bytes_of(g.policy)
            + (Quorum::bytes_of(g.quorum)
            + (u64::bytes_of(g.cycle)
            + Height::bytes_of(g.cycle_started)))))),
{
    lemma_tags();
}

/// The bytes of a fee, of a body, of a signature and of a transaction: their fields, in this
/// order.
pub proof fn law_the_bytes_of_transactions(
    f: FeeView,
    b: BodyView,
    s: TxSigView,
    t: TxView,
)
    ensures
        Fee::bytes_of(f) ==
            Amount::bytes_of(f.amount)
            + (Denom::bytes_of(f.denom)
            + Option::<Address>::bytes_of(f.payer)),
        TxBody::bytes_of(b) ==
            ChainId::bytes_of(b.chain_id)
            + (Address::bytes_of(b.sender)
            + (u64::bytes_of(b.nonce)
            + (Height::bytes_of(b.valid_until)
            + (Fee::bytes_of(b.fee)
            + (Vec::<Message>::bytes_of(b.messages)
            + String::bytes_of(b.memo)))))),
        TxSignature::bytes_of(s) ==
            PublicKey::bytes_of(s.public_key)
            + Signature::bytes_of(s.signature),
        Transaction::bytes_of(t) ==
            TxBody::bytes_of(t.body)
            + (Vec::<TxSignature>::bytes_of(t.signatures)
            + Vec::<TxSignature>::bytes_of(t.sponsor_signatures)),
{
    lemma_tags();
}

/// The bytes of a message about money or groups: a byte that tells it, then its fields in
/// this order.
pub proof fn law_the_bytes_of_messages_that_move_money(
    a: Address,
    s: Seq<char>,
    u: Amount,
    r: Option<PaymentReference>,
    members: Seq<FoundingMember>,
    c: ContributionView,
    p: PolicyView,
    q: Quorum,
)
    ensures
        Message::bytes_of(MessageView::Transfer { to: a, denom: s, amount: u, reference: r }) ==
            seq![0u8]
            + (Address::bytes_of(a)
            + (Denom::bytes_of(s)
            + (Amount::bytes_of(u)
            + Option::<PaymentReference>::bytes_of(r)))),
        Message::bytes_of(
            MessageView::CreateGroup { name: s, members, contribution: c, policy: p, quorum: q },
        ) ==
            seq![1u8]
            + (String::bytes_of(s)
            + (Vec::<FoundingMember>::bytes_of(members)
            + (Contribution::bytes_of(c)
            + (PayoutPolicy::bytes_of(p)
            + Quorum::bytes_of(q))))),
        Message::bytes_of(MessageView::ContributeToGroup { group: a, amount: u }) ==
            seq![2u8]
            + (Address::bytes_of(a)
            + Amount::bytes_of(u)),
        Message::bytes_of(MessageView::GroupPayout { group: a }) ==
            seq![3u8]
            + Address::bytes_of(a),
{
    lemma_tags();
    reveal(value_message_bytes);
}

/// The bytes of a message about names or contacts: a byte that tells it, then its fields in
/// this order.
pub proof fn law_the_bytes_of_messages_about_names(
    s: Seq<char>,
    a: Address,
    c: ContactCommitment,
)
    ensures
        Message::bytes_of(MessageView::RegisterName { name: s }) ==
            seq![4u8]
            + Username::bytes_of(s),
        Message::bytes_of(MessageView::RenewName { name: s }) ==
            seq![5u8]
            + Username::bytes_of(s),
        Message::bytes_of(MessageView::TransferName { name: s, to: a }) ==
            seq![6u8]
            + (Username::bytes_of(s)
            + Address::bytes_of(a)),
        Message::bytes_of(MessageView::SetPrimaryAlias { name: s }) ==
            seq![7u8]
            + Username::bytes_of(s),
        Message::bytes_of(MessageView::AttestContact { commitment: c, address: a }) ==
            seq![8u8]
            + (ContactCommitment::bytes_of(c)
            + Address::bytes_of(a)),
        Message::bytes_of(MessageView::RequestRebind { commitment: c, new_address: a }) ==
            seq![9u8]
            + (ContactCommitment::bytes_of(c)
            + Address::bytes_of(a)),
        Message::bytes_of(MessageView::VetoRebind { commitment: c }) ==
            seq![10u8]
            + ContactCommitment::bytes_of(c),
        Message::bytes_of(MessageView::RevokeContact { commitment: c }) ==
            seq![11u8]
            + ContactCommitment::bytes_of(c),
        Message::bytes_of(MessageView::ClearPrimaryAlias) ==
            seq![12u8],
        Message::bytes_of(MessageView::ReleaseName { name: s }) ==
            seq![13u8]
            + Username::bytes_of(s),
        Message::bytes_of(MessageView::ApplyRebind { commitment: c }) ==
            seq![22u8]
            + ContactCommitment::bytes_of(c),
{
    lemma_tags();
    reveal(name_message_bytes);
    reveal(contact_message_bytes);
}

/// The bytes of a message about stakes or the account itself: a byte that tells it, then its
/// fields in this order.
pub proof fn law_the_bytes_of_messages_about_stakes(
    k: Seq<u8>,
    c: Seq<u8>,
    u: Amount,
    e: EquivocationView,
    f: AccountFlag,
    b: bool,
    key: Option<Seq<u8>>,
    list: Option<SignersView>,
)
    ensures
        Message::bytes_of(MessageView::Bond { public_key: k, country: c, amount: u }) ==
            seq![14u8]
            + (PublicKey::bytes_of(k)
            + (CountryCode::bytes_of(c)
            + Amount::bytes_of(u))),
        Message::bytes_of(MessageView::AddStake { amount: u }) ==
            seq![15u8]
            + Amount::bytes_of(u),
        Message::bytes_of(MessageView::Unbond { amount: u }) ==
            seq![16u8]
            + Amount::bytes_of(u),
        Message::bytes_of(MessageView::WithdrawUnbonded) ==
            seq![17u8],
        Message::bytes_of(MessageView::ReportEquivocation { evidence: e }) ==
            seq![18u8]
            + Equivocation::bytes_of(e),
        Message::bytes_of(MessageView::SetAccountFlag { flag: f, enabled: b }) ==
            seq![19u8]
            + (AccountFlag::bytes_of(f)
            + bool::bytes_of(b)),
        Message::bytes_of(MessageView::SetRegularKey { key }) ==
            seq![20u8]
            + Option::<PublicKey>::bytes_of(key),
        Message::bytes_of(MessageView::SetSignerList { list }) ==
            seq![21u8]
            + Option::<SignerList>::bytes_of(list),
{
    lemma_tags();
    reveal(stake_message_bytes);
    reveal(evidence_message_bytes);
    reveal(account_message_bytes);
    reveal(signer_message_bytes);
}

/// The bytes of a bond and of what is on its way out: their fields, in this order.
pub proof fn law_the_bytes_of_stakes(
    b: BondView,
    u: Unbonding,
)
    ensures
        Bond::bytes_of(b) ==
            Address::bytes_of(b.operator)
            + (PublicKey::bytes_of(b.public_key)
            + (CountryCode::bytes_of(b.country)
            + (Amount::bytes_of(b.bonded)
            + (bool::bytes_of(b.jailed)
            + Option::<Height>::bytes_of(b.jailed_at))))),
        Unbonding::bytes_of(u) ==
            Amount::bytes_of(u.amount)
            + (Height::bytes_of(u.started_at)
            + Timestamp::bytes_of(u.completes_at)),
{
    lemma_tags();
}

/// The bytes of a proof and of a stored node: a byte that tells what a proof ends in or what
/// a node is before what it holds, and the siblings before the end.
pub proof fn law_the_bytes_of_proofs(
    v: Seq<u8>,
    h: Hash32,
    l: Hash32,
    p: ProofView,
)
    ensures
        ProofLeaf::bytes_of(LeafView::Present { value: v }) ==
            seq![0u8]
            + Vec::<u8>::bytes_of(v),
        ProofLeaf::bytes_of(LeafView::Absent) ==
            seq![1u8],
        ProofLeaf::bytes_of(LeafView::AbsentOccupied { other_key_hash: h, other_value: v }) ==
            seq![2u8]
            + (Hash32::bytes_of(h)
            + Vec::<u8>::bytes_of(v)),
        Proof::bytes_of(p) ==
            Vec::<Hash32>::bytes_of(p.siblings)
            + ProofLeaf::bytes_of(p.leaf),
        Node::bytes_of(NodeView::Leaf { key_hash: h, value: v }) ==
            seq![0u8]
            + (Hash32::bytes_of(h)
            + Vec::<u8>::bytes_of(v)),
        Node::bytes_of(NodeView::Internal { left: h, right: l }) ==
            seq![1u8]
            + (Hash32::bytes_of(h)
            + Hash32::bytes_of(l)),
{
    lemma_tags();
    law_blob_is_the_encoding_of_a_byte_list(v);
}

/// The bytes of a query: a byte that tells it, then its fields in this order.
pub proof fn law_the_bytes_of_queries(
    h: Height,
    a: Address,
    s: Seq<char>,
    c: ContactCommitment,
    i: Hash32,
    n: u32,
)
    ensures
        Query::bytes_of(QueryView::Status) ==
            seq![0u8],
        Query::bytes_of(QueryView::Header { height: h }) ==
            seq![1u8]
            + Height::bytes_of(h),
        Query::bytes_of(QueryView::Balance { address: a, denom: s }) ==
            seq![2u8]
            + (Address::bytes_of(a)
            + Denom::bytes_of(s)),
        Query::bytes_of(QueryView::Account { address: a }) ==
            seq![3u8]
            + Address::bytes_of(a),
        Query::bytes_of(QueryView::Supply { denom: s }) ==
            seq![4u8]
            + Denom::bytes_of(s),
        Query::bytes_of(QueryView::Issuer { denom: s }) ==
            seq![5u8]
            + Denom::bytes_of(s),
        Query::bytes_of(QueryView::Frozen { denom: s, address: a }) ==
            seq![6u8]
            + (Denom::bytes_of(s)
            + Address::bytes_of(a)),
        Query::bytes_of(QueryView::ResolveName { name: s }) ==
            seq![7u8]
            + Username::bytes_of(s),
        Query::bytes_of(QueryView::ResolveContact { commitment: c }) ==
            seq![8u8]
            + ContactCommitment::bytes_of(c),
        Query::bytes_of(QueryView::PrimaryAlias { address: a }) ==
            seq![9u8]
            + Address::bytes_of(a),
        Query::bytes_of(QueryView::Block { height: h }) ==
            seq![10u8]
            + Height::bytes_of(h),
        Query::bytes_of(QueryView::Transaction { id: i }) ==
            seq![11u8]
            + Hash32::bytes_of(i),
        Query::bytes_of(QueryView::History { address: a, from: h, limit: n }) ==
            seq![12u8]
            + (Address::bytes_of(a)
            + (Height::bytes_of(h)
            + u32::bytes_of(n))),
{
    lemma_tags();
}

/// The bytes of an answer: a byte that tells it, then what it holds; and of each thing it may
/// hold its fields, in this order.
pub proof fn law_the_bytes_of_answers(
    s: StatusView,
    h: SignedHeaderView,
    v: ProvedValueView,
    b: BlockView,
    t: ProvedTxView,
    e: HistoryEntry,
    y: HistoryView,
)
    ensures
        Response::bytes_of(ResponseView::Status(s)) ==
            seq![0u8]
            + Status::bytes_of(s),
        Response::bytes_of(ResponseView::Header(h)) ==
            seq![1u8]
            + SignedHeader::bytes_of(h),
        Response::bytes_of(ResponseView::Value(v)) ==
            seq![2u8]
            + ProvedValue::bytes_of(v),
        Response::bytes_of(ResponseView::Block(b)) ==
            seq![3u8]
            + Block::bytes_of(b),
        Response::bytes_of(ResponseView::Transaction(t)) ==
            seq![4u8]
            + ProvedTransaction::bytes_of(t),
        Response::bytes_of(ResponseView::History(y)) ==
            seq![5u8]
            + History::bytes_of(y),
        SignedHeader::bytes_of(h) ==
            BlockHeader::bytes_of(h.header)
            + Commit::bytes_of(h.commit),
        Status::bytes_of(s) ==
            ChainId::bytes_of(s.chain_id)
            + SignedHeader::bytes_of(s.tip),
        ProvedValue::bytes_of(v) ==
            Height::bytes_of(v.height)
            + (Option::<Vec<u8>>::bytes_of(v.value)
            + Proof::bytes_of(v.evidence)),
        ProvedTransaction::bytes_of(t) ==
            Height::bytes_of(t.height)
            + (u32::bytes_of(t.index)
            + (u32::bytes_of(t.total)
            + (Transaction::bytes_of(t.transaction)
            + (Vec::<Hash32>::bytes_of(t.siblings)
            + (TxReceipt::bytes_of(t.receipt)
            + Vec::<Hash32>::bytes_of(t.receipt_siblings)))))),
        HistoryEntry::bytes_of(e) ==
            Height::bytes_of(e.height)
            + (u32::bytes_of(e.index)
            + Hash32::bytes_of(e.tx_id)),
        History::bytes_of(y) ==
            Address::bytes_of(y.address)
            + (Vec::<HistoryEntry>::bytes_of(y.entries)
            + bool::bytes_of(y.truncated)),
{
    lemma_tags();
    reveal(signed_header_bytes);
    reveal(status_bytes);
    reveal(proved_value_bytes);
    reveal(proved_tx_bytes);
    reveal(history_bytes);
}

/// The bytes of a log entry, of a head, of a signed head and of a checkpoint: their fields, in
/// this order.
pub proof fn law_the_bytes_of_witness_records(
    e: LogEntry,
    h: HeadView,
    s: SignedHeadView,
    c: CheckpointView,
)
    ensures
        LogEntry::bytes_of(e) ==
            Height::bytes_of(e.height)
            + (Hash32::bytes_of(e.block_id)
            + Timestamp::bytes_of(e.observed_at)),
        TreeHead::bytes_of(h) ==
            LogId::bytes_of(h.log)
            + (ChainId::bytes_of(h.chain_id)
            + (u64::bytes_of(h.size)
            + (Hash32::bytes_of(h.root)
            + Timestamp::bytes_of(h.signed_at)))),
        SignedTreeHead::bytes_of(s) ==
            TreeHead::bytes_of(s.head)
            + Signature::bytes_of(s.signature),
        Checkpoint::bytes_of(c) ==
            ChainId::bytes_of(c.chain_id)
            + (Height::bytes_of(c.height)
            + Hash32::bytes_of(c.block_id)),
{
    lemma_tags();
}

/// Which plain values may travel: every number, digest, address and signature; a key that is
/// one; a name, a denomination, a network and a country that is one; and a text of at most
/// sixteen mebibytes.
pub proof fn law_which_plain_values_travel(
    s: Seq<char>,
    k: Seq<u8>,
    a: Address,
    h: Hash32,
    g: Signature,
    l: LogId,
    n: u64,
    m: u32,
    u: u128,
    b: bool,
)
    ensures
        String::valid(s) <==> encode_utf8(s).len() <= 16_777_216,
        Username::valid(s) <==> valid_username(s),
        Denom::valid(s) <==> denom_complaint(s) is None,
        ChainId::valid(s) <==> chain_id_complaint(s) is None,
        CountryCode::valid(k) <==> k.len() == 2 && 97 <= k[0] <= 122 && 97 <= k[1] <= 122,
        PublicKey::valid(k) <==> k.len() == 32 && decompresses(k),
        AccountFlags::valid(m) <==> m < 4,
        Address::valid(a) && Hash32::valid(h) && Signature::valid(g) && LogId::valid(l),
        ContactCommitment::valid(ContactCommitment(h)),
        u64::valid(n) && u32::valid(m) && u128::valid(u) && bool::valid(b),
        Height::valid(Height(n)) && Timestamp::valid(Timestamp(n)) && Round::valid(Round(m)),
        Amount::valid(Amount(u)) && PaymentReference::valid(PaymentReference(n)),
        Role::valid(Role::Treasurer) && Role::valid(Role::Member),
        VoteType::valid(VoteType::Prevote) && VoteType::valid(VoteType::Precommit),
        AccountFlag::valid(AccountFlag::RequireReference),
        AccountFlag::valid(AccountFlag::MasterKeyDisabled),
{
}

/// Which accounts may travel: those that somebody can sign for, with keys, flags, signers and
/// a kind that may. A list of signers must be one that may be listed, and a group must not
/// have more than a hundred members.
pub proof fn law_which_accounts_travel(
    a: AccountView,
    s: SignerView,
    l: SignersView,
    p: TxPointer,
    k: Option<Seq<u8>>,
    g: GroupView,
    n: Seq<char>,
    m: Member,
    f: FoundingMember,
    c: ContributionView,
    q: Quorum,
    order: Seq<Address>,
    next: u32,
)
    ensures
        TxPointer::valid(p) && Member::valid(m) && FoundingMember::valid(f) && Quorum::valid(q),
        Signer::valid(s) <==> PublicKey::valid(s.key),
        SignerList::valid(l) <==> signer_complaint(l.signers, l.quorum) is None && forall|i: int|
            0 <= i < l.signers.len() ==> Signer::valid(#[trigger] l.signers[i]),
        AccountKind::valid(KindView::Individual { public_key: k }) <==> (k matches Some(key)
            ==> PublicKey::valid(key)),
        AccountKind::valid(KindView::Group(g)) <==> GroupAccount::valid(g),
        AccountKind::valid(KindView::Module { name: n }) <==> String::valid(n),
        Account::valid(a) <==> {
            &&& (a.flags / 2) % 2 == 0 || a.regular_key is Some || a.signers is Some
            &&& a.flags < 4
            &&& AccountKind::valid(a.kind)
            &&& a.regular_key matches Some(key) ==> PublicKey::valid(key)
            &&& a.signers matches Some(list) ==> SignerList::valid(list)
        },
        Contribution::valid(c) <==> Denom::valid(c.denom),
        PayoutPolicy::valid(PolicyView::Rotation { order, next }) <==> order.len() <= 16_777_216,
        PayoutPolicy::valid(PolicyView::Accumulate),
        GroupAccount::valid(g) <==> {
            &&& g.members.len() <= 100
            &&& String::valid(g.name)
            &&& Contribution::valid(g.contribution)
            &&& PayoutPolicy::valid(g.policy)
        },
{
    law_every_flag_has_its_bit(a.flags);
}

/// Which transactions may travel: those of a right form whose body and signatures may. A body
/// may with a network, a fee, messages and a memo that may.
pub proof fn law_which_transactions_travel(
    f: FeeView,
    b: BodyView,
    s: TxSigView,
    t: TxView,
)
    ensures
        Fee::valid(f) <==> Denom::valid(f.denom),
        TxSignature::valid(s) <==> PublicKey::valid(s.public_key),
        TxBody::valid(b) <==> {
            &&& ChainId::valid(b.chain_id)
            &&& Fee::valid(b.fee)
            &&& b.messages.len() <= 16_777_216
            &&& forall|i: int| 0 <= i < b.messages.len()
                ==> Message::valid(#[trigger] b.messages[i])
            &&& String::valid(b.memo)
        },
        Transaction::valid(t) <==> {
            &&& form_complaint(t) is None
            &&& TxBody::valid(t.body)
            &&& forall|i: int|
                0 <= i < t.signatures.len() ==> TxSignature::valid(#[trigger] t.signatures[i])
            &&& forall|i: int|
                0 <= i < t.sponsor_signatures.len() ==> TxSignature::valid(
                    #[trigger] t.sponsor_signatures[i],
                )
        },
{
}

/// Which messages may travel: those whose fields may, and every one of them may.
pub proof fn law_which_messages_travel(
    m: MessageView,
)
    ensures
        m matches MessageView::Transfer { denom, .. } ==> (Message::valid(m)
            <==> Denom::valid(denom)),
        m matches MessageView::CreateGroup { name, members, contribution, policy, .. } ==> (
        Message::valid(m) <==> String::valid(name) && members.len() <= 16_777_216
            && Contribution::valid(contribution) && PayoutPolicy::valid(policy)),
        m is ContributeToGroup || m is GroupPayout || m is AddStake || m is Unbond
            ==> Message::valid(m),
        m is AttestContact || m is RequestRebind || m is VetoRebind || m is RevokeContact || m
            is ApplyRebind || m is ClearPrimaryAlias || m is WithdrawUnbonded || m is SetAccountFlag
            ==> Message::valid(m),
        m matches MessageView::RegisterName { name } ==> (Message::valid(m)
            <==> Username::valid(name)),
        m matches MessageView::RenewName { name } ==> (Message::valid(m)
            <==> Username::valid(name)),
        m matches MessageView::TransferName { name, .. } ==> (Message::valid(m)
            <==> Username::valid(
            name,
        )),
        m matches MessageView::SetPrimaryAlias { name } ==> (Message::valid(m) <==> Username::valid(
            name,
        )),
        m matches MessageView::ReleaseName { name } ==> (Message::valid(m)
            <==> Username::valid(name)),
        m matches MessageView::Bond { public_key, country, .. } ==> (Message::valid(m)
            <==> PublicKey::valid(public_key) && CountryCode::valid(country)),
        m matches MessageView::ReportEquivocation { evidence } ==> (Message::valid(m)
            <==> Equivocation::valid(evidence)),
        m matches MessageView::SetRegularKey { key } ==> (Message::valid(m) <==> (key
            matches Some(k)
            ==> PublicKey::valid(k))),
        m matches MessageView::SetSignerList { list } ==> (Message::valid(m) <==> (list
            matches Some(l)
            ==> SignerList::valid(l))),
{
    reveal(value_message_valid);
    reveal(name_message_valid);
    reveal(contact_message_valid);
    reveal(stake_message_valid);
    reveal(evidence_message_valid);
    reveal(account_message_valid);
    reveal(signer_message_valid);
}

/// Which votes, commits, blocks and receipts may travel: those for networks, keys, countries
/// and transactions that may, with no list above the common limit.
pub proof fn law_which_blocks_travel(
    v: VoteView,
    s: SignedVoteView,
    e: EquivocationView,
    d: ValidatorView,
    c: CommitView,
    h: BlockHeaderView,
    b: BlockView,
    r: ReceiptView,
    bond: BondView,
    u: Unbonding,
)
    ensures
        Vote::valid(v) <==> ChainId::valid(v.chain_id),
        SignedVote::valid(s) <==> Vote::valid(s.vote),
        Equivocation::valid(e) <==> SignedVote::valid(e.first) && SignedVote::valid(e.second),
        Validator::valid(d) <==> PublicKey::valid(d.public_key) && CountryCode::valid(d.country),
        Commit::valid(c) <==> c.signatures.len() <= 16_777_216 && forall|i: int|
            0 <= i < c.signatures.len() ==> SignedVote::valid(#[trigger] c.signatures[i]),
        BlockHeader::valid(h) <==> ChainId::valid(h.chain_id),
        Block::valid(b) <==> BlockHeader::valid(b.header) && b.transactions.len() <= 16_777_216
            && forall|i: int|
            0 <= i < b.transactions.len() ==> Transaction::valid(#[trigger] b.transactions[i]),
        TxReceipt::valid(r) <==> r.links.len() <= 16_777_216,
        Bond::valid(bond) <==> PublicKey::valid(bond.public_key)
            && CountryCode::valid(bond.country),
        Unbonding::valid(u),
{
    reveal(signed_vote_valid);
    reveal(header_valid);
    reveal(block_valid);
    reveal(receipt_valid);
}

/// Which proofs, nodes, queries and answers may travel: a proof of at most 256 siblings, a
/// value of at most sixteen mebibytes, and otherwise what has parts that may.
pub proof fn law_which_proofs_travel(
    leaf: LeafView,
    p: ProofView,
    n: NodeView,
    q: QueryView,
    r: ResponseView,
    y: HistoryView,
    t: ProvedTxView,
    v: ProvedValueView,
    st: StatusView,
    sh: SignedHeaderView,
    e: HistoryEntry,
    w: HeadView,
    sw: SignedHeadView,
    cp: CheckpointView,
    le: LogEntry,
)
    ensures
        ProofLeaf::valid(leaf) <==> match leaf {
            LeafView::Present { value } => value.len() <= 16_777_216,
            LeafView::Absent => true,
            LeafView::AbsentOccupied { other_value, .. } => other_value.len() <= 16_777_216,
        },
        Proof::valid(p) <==> p.siblings.len() <= 256 && ProofLeaf::valid(p.leaf),
        Node::valid(n) <==> (n matches NodeView::Leaf { value, .. } ==> value.len() <= 16_777_216),
        Query::valid(q) <==> match q {
            QueryView::Balance { denom, .. } => Denom::valid(denom),
            QueryView::Supply { denom } => Denom::valid(denom),
            QueryView::Issuer { denom } => Denom::valid(denom),
            QueryView::Frozen { denom, .. } => Denom::valid(denom),
            QueryView::ResolveName { name } => Username::valid(name),
            _ => true,
        },
        Response::valid(r) <==> match r {
            ResponseView::Status(x) => Status::valid(x),
            ResponseView::Header(x) => SignedHeader::valid(x),
            ResponseView::Value(x) => ProvedValue::valid(x),
            ResponseView::Block(x) => Block::valid(x),
            ResponseView::Transaction(x) => ProvedTransaction::valid(x),
            ResponseView::History(x) => History::valid(x),
        },
        SignedHeader::valid(sh) <==> BlockHeader::valid(sh.header) && Commit::valid(sh.commit),
        Status::valid(st) <==> ChainId::valid(st.chain_id) && SignedHeader::valid(st.tip),
        ProvedValue::valid(v) <==> (v.value matches Some(x) ==> x.len() <= 16_777_216)
            && Proof::valid(
            v.evidence,
        ),
        ProvedTransaction::valid(t) <==> Transaction::valid(t.transaction)
            && TxReceipt::valid(t.receipt)
            && t.siblings.len() <= 16_777_216 && t.receipt_siblings.len() <= 16_777_216,
        HistoryEntry::valid(e),
        History::valid(y) <==> y.entries.len() <= 16_777_216,
        LogEntry::valid(le),
        TreeHead::valid(w) <==> ChainId::valid(w.chain_id),
        SignedTreeHead::valid(sw) <==> TreeHead::valid(sw.head),
        Checkpoint::valid(cp) <==> ChainId::valid(cp.chain_id),
{
    reveal(signed_header_valid);
    reveal(status_valid);
    reveal(proved_value_valid);
    reveal(proved_tx_valid);
    reveal(history_valid);
}

/// A byte that tells no variant is refused, and both the byte and the kind of record are
/// named.
pub proof fn law_unknown_variants_are_refused(tag: u8, rest: Seq<u8>)
    ensures
        ({
            let s = seq![tag] + rest;
            &&& tag > 1 ==> bool::parse(s).value == Err::<bool, CodecFault>(
                CodecFault::UnknownDiscriminant { tag, what: "bool"@ },
            )
            &&& tag > 1 ==> Role::parse(s).value == Err::<Role, CodecFault>(
                CodecFault::UnknownDiscriminant { tag, what: "Role"@ },
            )
            &&& tag > 1 ==> VoteType::parse(s).value == Err::<VoteType, CodecFault>(
                CodecFault::UnknownDiscriminant { tag, what: "VoteType"@ },
            )
            &&& tag > 1 ==> PayoutPolicy::parse(s).value == Err::<PolicyView, CodecFault>(
                CodecFault::UnknownDiscriminant { tag, what: "PayoutPolicy"@ },
            )
            &&& tag > 1 ==> Node::parse(s).value == Err::<NodeView, CodecFault>(
                CodecFault::UnknownDiscriminant { tag, what: "Node"@ },
            )
            &&& tag > 2 ==> ProofLeaf::parse(s).value == Err::<LeafView, CodecFault>(
                CodecFault::UnknownDiscriminant { tag, what: "ProofLeaf"@ },
            )
            &&& tag > 2 ==> AccountKind::parse(s).value == Err::<KindView, CodecFault>(
                CodecFault::UnknownDiscriminant { tag, what: "AccountKind"@ },
            )
            &&& tag > 5 ==> Response::parse(s).value == Err::<ResponseView, CodecFault>(
                CodecFault::UnknownDiscriminant { tag, what: "Response"@ },
            )
            &&& tag > 12 ==> Query::parse(s).value == Err::<QueryView, CodecFault>(
                CodecFault::UnknownDiscriminant { tag, what: "Query"@ },
            )
            &&& tag > 22 ==> Message::parse(s).value == Err::<MessageView, CodecFault>(
                CodecFault::UnknownDiscriminant { tag, what: "Message"@ },
            )
            &&& tag > 1 ==> Option::<u64>::parse(s).value == Err::<Option<u64>, CodecFault>(
                CodecFault::UnknownDiscriminant { tag, what: "Option"@ },
            )
        }),
{
    lemma_tags();
    u8::round_trip(tag, rest);
    assert(u8::bytes_of(tag) + rest == seq![tag] + rest);
}

/// A record that decodes but is none is refused, and the reason says what it is not: a
/// name, a denomination, a network, a country, a key, flags, a list of signers, a proof
/// or a transaction of a right form.
pub proof fn law_malformed_records_are_refused(s: Seq<u8>)
    ensures
        String::parse(s).value matches Ok(v) ==> (!valid_username(v) ==> Username::parse(s).value
            == Err::<Seq<char>, CodecFault>(CodecFault::Invalid("invalid username"@))),
        String::parse(s).value matches Ok(v) ==> (denom_complaint(v) matches Some(reason)
            ==> Denom::parse(s).value == Err::<Seq<char>, CodecFault>(
            CodecFault::Invalid((Fault::InvalidDenom { denom: v, reason }).text()),
        )),
        String::parse(s).value matches Ok(v) ==> (chain_id_complaint(v) matches Some(reason)
            ==> ChainId::parse(s).value == Err::<Seq<char>, CodecFault>(
            CodecFault::Invalid((Fault::InvalidChainId { id: v, reason }).text()),
        )),
        s.len() >= 2 && !valid_country(s.take(2)) ==> CountryCode::parse(s).value == Err::<
            Seq<u8>,
            CodecFault,
        >(CodecFault::Invalid("country code must be two lowercase ASCII letters"@)),
        s.len() >= 32 && !decompresses(s.take(32)) ==> PublicKey::parse(s).value == Err::<
            Seq<u8>,
            CodecFault,
        >(CodecFault::Invalid("malformed public key"@)),
        u32::parse(s).value matches Ok(bits) ==> (bits >= 4 ==> AccountFlags::parse(s).value
            == Err::<u32, CodecFault>(
            CodecFault::Invalid(
                "account flags carry unknown bits: 0x"@ + text::hex_number(bits as nat),
            ),
        )),
        u32::parse(s).value matches Ok(bit) ==> (bit != 1 && bit != 2 ==> AccountFlag::parse(
            s,
        ).value == Err::<AccountFlag, CodecFault>(
            CodecFault::Invalid(
                "no account flag is defined for bit 0x"@ + text::hex_number(bit as nat),
            ),
        )),
        <(Vec<Signer>, u32)>::parse(s).value matches Ok(t) ==> (signer_complaint(
            t.0,
            t.1,
        ) matches Some(e) ==> SignerList::parse(s).value == Err::<SignersView, CodecFault>(
            CodecFault::Invalid(e.text()),
        )),
        Vec::<Hash32>::parse(s).value matches Ok(siblings) ==> (siblings.len() > 256
            ==> Proof::parse(s).value == Err::<ProofView, CodecFault>(
            CodecFault::Invalid(
                "proof has "@ + text::decimal(siblings.len()) + " siblings, maximum is 256"@,
            ),
        )),
        <(TxBody, (Vec<TxSignature>, Vec<TxSignature>))>::parse(s).value matches Ok(t) ==> (
        form_complaint(
            TxView { body: t.0, signatures: t.1.0, sponsor_signatures: t.1.1 },
        ) matches Some(reason) ==> Transaction::parse(s).value == Err::<TxView, CodecFault>(
            CodecFault::Invalid(reason),
        )),
{
}

/// How signatures of a wrong form are refused: their count is named, and keys that do not
/// ascend are said not to.
pub proof fn law_how_a_wrong_form_is_named(t: TxView)
    ensures
        ({
            let (own, others) = (t.signatures, t.sponsor_signatures);
            let own_ascend = forall|i: int, j: int|
                0 <= i < j < own.len() ==> lex_less(
                    #[trigger] own[i].public_key,
                    #[trigger] own[j].public_key,
                );
            let others_ascend = forall|i: int, j: int|
                0 <= i < j < others.len() ==> lex_less(
                    #[trigger] others[i].public_key,
                    #[trigger] others[j].public_key,
                );
            form_complaint(t) == if own.len() == 0 || own.len() > 32 {
                Some(
                    "a transaction must carry 1..=32 signatures, got "@ + text::decimal(own.len()),
                )
            } else if others.len() > 32 {
                Some(
                    "a transaction may carry at most 32 sponsor signatures, got "@ + text::decimal(
                        others.len(),
                    ),
                )
            } else if !own_ascend || !others_ascend {
                Some("transaction signatures must be sorted by public key and unique"@)
            } else {
                None
            }
        }),
{
}

} // verus!
