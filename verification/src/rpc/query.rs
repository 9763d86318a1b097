//! Request and response types, and their canonical wire encoding.

use crate::alias::{ContactCommitment, Username};
use crate::chain::{
    header_id, Block, BlockHeader, BlockHeaderView, BlockView, ReceiptView, TxReceipt,
};
use crate::consensus::{Commit, CommitView, ValidatorSet, ValidatorView};
use crate::crypto::address::Address;
use crate::crypto::hash::{clash_free, Hash32, Preimage};
use crate::crypto::merkle::{
    all_hashed, climbed, law_inclusion_proofs_are_complete,
    law_only_members_have_inclusion_proofs, leaf_hash, leaf_of, leaves_of, path_to, root_over,
    MerkleProof,
};
use crate::light::{LightClient, LightError};
use crate::primitives::amount::Amount;
use crate::primitives::codec::{
    decode_exact, fault, law_encoding_is_injective, parse_exact, Canonical, CodecError, CodecFault,
    Decode, Encode, Parsed, Reader,
};
use crate::primitives::denom::Denom;
use crate::primitives::ids::{ChainId, Height};
use crate::primitives::wire;
use crate::state::membership::{Proof, ProofView};
use crate::state::store::{
    account_key, alias_key, alias_reverse_key, balance_key, contact_key, frozen_key, issuer_key,
    supply_key, StoreKey,
};
use crate::types::tx::{Transaction, TxView};
use crate::primitives::text;
use vstd::prelude::*;

verus! {

/// The fields of a [`ProvedTransaction`], as they follow each other on the wire.
type ProvedFields = (Height, (u32, (u32, (Transaction, (Vec<Hash32>, (TxReceipt, Vec<Hash32>))))));

/// Largest number of history entries one query may return.
pub const MAX_HISTORY: u32 = 200;

/// Why a query could not be answered. There is no "trust me" failure mode: a server either produces
/// a proof or reports that it cannot answer.
#[derive(Debug, Clone, PartialEq, Eq)]
pub enum QueryError {
    /// The node does not have that height: pruned, or not yet reached.
    NoSuchHeight(u64),
    /// The node has the block but not the commit that finalises it.
    NoCommit(u64),
    /// No transaction with that id, on this node.
    NoSuchTransaction(String),
    /// This node does not keep the index the query needs. Distinct from an empty answer.
    NotIndexed(&'static str),
    /// The storage layer failed. Distinct from "not found": a disk error that reads as an absent
    /// account would let a failing node silently report zero balances.
    Backend(String),
}

/// The mathematical view of a [`QueryError`].
pub enum QueryFault {
    NoSuchHeight(u64),
    NoCommit(u64),
    NoSuchTransaction(Seq<char>),
    NotIndexed(Seq<char>),
    Backend(Seq<char>),
}

impl DeepView for QueryError {
    type V = QueryFault;

    open spec fn deep_view(&self) -> QueryFault {
        match *self {
            QueryError::NoSuchHeight(height) => QueryFault::NoSuchHeight(height.deep_view()),
            QueryError::NoCommit(height) => QueryFault::NoCommit(height.deep_view()),
            QueryError::NoSuchTransaction(id) => QueryFault::NoSuchTransaction(id.deep_view()),
            QueryError::NotIndexed(what) => QueryFault::NotIndexed(what.deep_view()),
            QueryError::Backend(reason) => QueryFault::Backend(reason.deep_view()),
        }
    }
}

impl QueryFault {
    /// The sentence that describes this error.
    pub open spec fn text(self) -> Seq<char> {
        match self {
            QueryFault::NoSuchHeight(height) =>
                "height "@ + text::decimal(height as nat) + " is not available on this node"@,
            QueryFault::NoCommit(height) =>
                "no commit stored for height "@ + text::decimal(height as nat),
            QueryFault::NoSuchTransaction(id) => "no transaction "@ + id + " on this node"@,
            QueryFault::NotIndexed(what) => "this node does not maintain "@ + what,
            QueryFault::Backend(reason) => "backend error: "@ + reason,
        }
    }
}

impl QueryError {
    /// The sentence that describes this error.
    pub fn to_string(&self) -> (s: String)
        ensures
            s@ == self.deep_view().text(),
    {
        match self {
            QueryError::NoSuchHeight(height) => {
                let mut s = String::from_str("height ");
                s.append(text::decimal_text(*height as u128).as_str());
                s.append(" is not available on this node");
                s
            },
            QueryError::NoCommit(height) => {
                let mut s = String::from_str("no commit stored for height ");
                s.append(text::decimal_text(*height as u128).as_str());
                s
            },
            QueryError::NoSuchTransaction(id) => {
                let mut s = String::from_str("no transaction ");
                s.append(id.as_str());
                s.append(" on this node");
                s
            },
            QueryError::NotIndexed(what) => {
                let mut s = String::from_str("this node does not maintain ");
                s.append(what);
                s
            },
            QueryError::Backend(reason) => {
                let mut s = String::from_str("backend error: ");
                s.append(reason.as_str());
                s
            },
        }
    }
}

/// What a client is asking for. Every variant that touches state is answered with a
/// [`ProvedValue`].
#[derive(Debug, Clone, PartialEq, Eq)]
pub enum Query {
    /// The node's current tip, with the commit that finalises it.
    Status,
    /// One header and its commit.
    Header {
        /// Height wanted.
        height: Height,
    },
    /// An account's balance in one denomination.
    Balance {
        /// Account to look up.
        address: Address,
        /// Denomination.
        denom: Denom,
    },
    /// An account record: nonce, and public key once revealed.
    Account {
        /// Account to look up.
        address: Address,
    },
    /// Total supply of a denomination.
    Supply {
        /// Denomination.
        denom: Denom,
    },
    /// The registered issuer of a sovereign denomination.
    Issuer {
        /// Denomination.
        denom: Denom,
    },
    /// Whether an issuer has frozen an account for its own denomination.
    Frozen {
        /// Denomination.
        denom: Denom,
        /// Account to check.
        address: Address,
    },
    /// Which account a username points at.
    ResolveName {
        /// The name to look up.
        name: Username,
    },
    /// Which account a phone or email commitment points at. A node serving this query never learns
    /// the identifier.
    ResolveContact {
        /// Commitment to the identifier.
        commitment: ContactCommitment,
    },
    /// The name a wallet should display for an address.
    PrimaryAlias {
        /// The address to name.
        address: Address,
    },
    /// A whole block, transactions included.
    Block {
        /// Height wanted.
        height: Height,
    },
    /// One transaction, with an inclusion proof against its block's `tx_root`.
    Transaction {
        /// The transaction's id.
        id: Hash32,
    },
    /// Which transactions touched an account, oldest first. The one query whose answer is not
    /// proved.
    History {
        /// Account to look up.
        address: Address,
        /// Lowest height to consider.
        from: Height,
        /// Most entries to return, capped at [`MAX_HISTORY`].
        limit: u32,
    },
}

/// The mathematical view of a [`Query`].
pub enum QueryView {
    Status,
    Header { height: Height },
    Balance { address: Address, denom: Seq<char> },
    Account { address: Address },
    Supply { denom: Seq<char> },
    Issuer { denom: Seq<char> },
    Frozen { denom: Seq<char>, address: Address },
    ResolveName { name: Seq<char> },
    ResolveContact { commitment: ContactCommitment },
    PrimaryAlias { address: Address },
    Block { height: Height },
    Transaction { id: Hash32 },
    History { address: Address, from: Height, limit: u32 },
}

impl DeepView for Query {
    type V = QueryView;

    open spec fn deep_view(&self) -> QueryView {
        match *self {
            Query::Status => QueryView::Status,
            Query::Header { height } => QueryView::Header { height: height.deep_view() },
            Query::Balance { address, denom } =>
                QueryView::Balance { address: address.deep_view(), denom: denom.deep_view() },
            Query::Account { address } => QueryView::Account { address: address.deep_view() },
            Query::Supply { denom } => QueryView::Supply { denom: denom.deep_view() },
            Query::Issuer { denom } => QueryView::Issuer { denom: denom.deep_view() },
            Query::Frozen { denom, address } =>
                QueryView::Frozen { denom: denom.deep_view(), address: address.deep_view() },
            Query::ResolveName { name } => QueryView::ResolveName { name: name.deep_view() },
            Query::ResolveContact { commitment } =>
                QueryView::ResolveContact { commitment: commitment.deep_view() },
            Query::PrimaryAlias { address } =>
                QueryView::PrimaryAlias { address: address.deep_view() },
            Query::Block { height } => QueryView::Block { height: height.deep_view() },
            Query::Transaction { id } => QueryView::Transaction { id: id.deep_view() },
            Query::History { address, from, limit } =>
                QueryView::History {
                    address: address.deep_view(),
                    from: from.deep_view(),
                    limit: limit.deep_view(),
                },
        }
    }
}

impl QueryView {
    /// The state key that a query resolves to, if it is a state query.
    pub open spec fn key(self) -> Option<Seq<u8>> {
        match self {
            QueryView::Balance { address, denom } => Some(balance_key(address, denom)),
            QueryView::Account { address } => Some(account_key(address)),
            QueryView::Supply { denom } => Some(supply_key(denom)),
            QueryView::Issuer { denom } => Some(issuer_key(denom)),
            QueryView::Frozen { denom, address } => Some(frozen_key(denom, address)),
            QueryView::ResolveName { name } => Some(alias_key(name)),
            QueryView::ResolveContact { commitment } => Some(contact_key(commitment.0)),
            QueryView::PrimaryAlias { address } => Some(alias_reverse_key(address)),
            _ => None,
        }
    }
}

impl Query {
    /// The state key this query resolves to, if it is a state query.
    ///
    /// A client calls this to know what to verify against; a server calls it to know
    /// what to prove.
    pub fn store_key(&self) -> (k: Option<StoreKey>)
        ensures
            match k {
                Some(k) => self.deep_view().key() == Some(k@),
                None => self.deep_view().key() is None,
            },
    {
        match self {
            Query::Status => None,
            Query::Header { .. } => None,
            Query::Block { .. } => None,
            Query::Transaction { .. } => None,
            Query::History { .. } => None,
            Query::Balance { address, denom } => Some(StoreKey::balance(address, denom)),
            Query::Account { address } => Some(StoreKey::account(address)),
            Query::Supply { denom } => Some(StoreKey::supply(denom)),
            Query::Issuer { denom } => Some(StoreKey::issuer(denom)),
            Query::Frozen { denom, address } => Some(StoreKey::frozen(denom, address)),
            Query::ResolveName { name } => Some(StoreKey::alias(name.as_str())),
            Query::ResolveContact { commitment } => Some(StoreKey::contact(commitment.as_hash())),
            Query::PrimaryAlias { address } => Some(StoreKey::alias_reverse(address)),
        }
    }
}

/// A header together with the commit that finalises it. The two always travel together: a header on
/// its own is an unsupported claim.
#[derive(Debug, Clone, PartialEq, Eq)]
pub struct SignedHeader {
    /// The block header.
    pub header: BlockHeader,
    /// Precommit signatures from more than two thirds of voting power.
    pub commit: Commit,
}

/// The mathematical view of a [`SignedHeader`].
pub struct SignedHeaderView {
    pub header: BlockHeaderView,
    pub commit: CommitView,
}

impl DeepView for SignedHeader {
    type V = SignedHeaderView;

    open spec fn deep_view(&self) -> SignedHeaderView {
        SignedHeaderView {
            header: self.header.deep_view(),
            commit: self.commit.deep_view(),
        }
    }
}

impl SignedHeaderView {
    /// What is wrong with a header and its commit, if anything.
    pub open spec fn complaint(self, chain_id: Seq<char>, validators: Seq<ValidatorView>) -> Option<
        LightError,
    > {
        if self.commit.block_id != header_id(self.header) || self.commit.height
            != self.header.height {
            Some(LightError::HeaderMismatch)
        } else {
            match self.commit.fault(chain_id, validators) {
                Some(e) => Some(LightError::Commit(e)),
                None => None,
            }
        }
    }
}

impl SignedHeader {
    /// Check that the commit finalises *this* header and carries a quorum.
    ///
    /// Both claims matter: a commit can be perfectly valid and finalise a different
    /// block.
    pub fn verify(&self, chain_id: &ChainId, validators: &ValidatorSet) -> (r: Result<
        (),
        LightError,
    >)
        ensures
            r == match self.deep_view().complaint(chain_id@, validators@) {
                None => Ok::<(), LightError>(()),
                Some(e) => Err(e),
            },
    {
        if !self.commit.block_id.same(&self.header.id()) || self.commit.height.0
            != self.header.height.0 {
            return Err(LightError::HeaderMismatch);
        }
        match self.commit.verify(chain_id, validators) {
            Ok(()) => Ok(()),
            Err(e) => Err(LightError::Commit(e)),
        }
    }
}

/// A node's view of its own tip.
#[derive(Debug, Clone, PartialEq, Eq)]
pub struct Status {
    /// The network this node believes it is on.
    pub chain_id: ChainId,
    /// The tip, with its commit.
    pub tip: SignedHeader,
}

/// The mathematical view of a [`Status`].
pub struct StatusView {
    pub chain_id: Seq<char>,
    pub tip: SignedHeaderView,
}

impl DeepView for Status {
    type V = StatusView;

    open spec fn deep_view(&self) -> StatusView {
        StatusView {
            chain_id: self.chain_id.deep_view(),
            tip: self.tip.deep_view(),
        }
    }
}

/// A state value with the proof that it belongs to a committed state root. The value is not
/// readable without verifying it.
#[derive(Debug, Clone, PartialEq, Eq)]
pub struct ProvedValue {
    height: Height,
    value: Option<Vec<u8>>,
    evidence: Proof,
}

/// The mathematical view of a [`ProvedValue`].
pub struct ProvedValueView {
    pub height: Height,
    pub value: Option<Seq<u8>>,
    pub evidence: ProofView,
}

impl DeepView for ProvedValue {
    type V = ProvedValueView;

    closed spec fn deep_view(&self) -> ProvedValueView {
        ProvedValueView {
            height: self.height.deep_view(),
            value: self.value.deep_view(),
            evidence: self.evidence.deep_view(),
        }
    }
}

impl ProvedValueView {
    /// What a client that trusts a header makes of an answer about a key.
    pub open spec fn checked(self, header: BlockHeaderView, key: Seq<u8>) -> Result<
        Option<Seq<u8>>,
        LightError,
    > {
        if self.evidence.shows(header.app_hash, key, self.value) {
            Ok(self.value)
        } else {
            Err(LightError::BadProof)
        }
    }

    /// What a client that trusts a header makes of an answer about an amount. A proved
    /// absence is zero.
    pub open spec fn checked_amount(self, header: BlockHeaderView, key: Seq<u8>) -> Result<
        Amount,
        LightError,
    > {
        match self.checked(header, key) {
            Err(e) => Err(e),
            Ok(None) => Ok(Amount(0)),
            Ok(Some(bytes)) => match parse_exact::<Amount>(bytes) {
                Ok(a) => Ok(a),
                Err(_) => Err(LightError::MalformedValue),
            },
        }
    }
}

impl ProvedValue {
    /// Build an answer. Callable only inside this crate, by a server that has just
    /// produced the proof from the same tree it read the value from.
    pub(crate) fn new(height: Height, value: Option<Vec<u8>>, evidence: Proof) -> (v: Self)
        ensures
            v.deep_view() == (ProvedValueView {
                height,
                value: value.deep_view(),
                evidence: evidence.deep_view(),
            }),
    {
        ProvedValue { height, value, evidence }
    }

    /// The height whose state root this proof is against.
    pub fn height(&self) -> (h: Height)
        ensures
            h == self.deep_view().height,
    {
        self.height
    }

    /// The proof itself.
    pub fn membership_proof(&self) -> (p: &Proof)
        ensures
            p.deep_view() == self.deep_view().evidence,
    {
        &self.evidence
    }

    /// Check the proof against a trusted header and return the value.
    ///
    /// `key` must be the client's own reconstruction, normally [`Query::store_key`] on
    /// the query it sent. A `None` result is a proved absence, not a missing answer.
    pub fn verify(&self, client: &LightClient, key: &StoreKey) -> (r: Result<
        Option<&[u8]>,
        LightError,
    >)
        ensures
            match self.deep_view().checked(client.trusted(), key@) {
                Ok(v) => r matches Ok(x) && x.deep_view() == v,
                Err(e) => r matches Err(x) && x == e,
            },
    {
        let value = self.value_unverified();
        match client.verify_value(key, value, &self.evidence) {
            Ok(()) => Ok(value),
            Err(e) => Err(e),
        }
    }

    /// Verify and decode as an [`Amount`], treating a proved absence as zero.
    pub fn verify_amount(&self, client: &LightClient, key: &StoreKey) -> (r: Result<
        Amount,
        LightError,
    >)
        ensures
            r == self.deep_view().checked_amount(client.trusted(), key@),
    {
        match self.verify(client, key) {
            Err(e) => Err(e),
            Ok(None) => Ok(Amount::zero()),
            Ok(Some(bytes)) => {
                assert(bytes.deep_view() =~= bytes@);
                match decode_exact::<Amount>(bytes) {
                    Ok(a) => Ok(a),
                    Err(_) => Err(LightError::MalformedValue),
                }
            },
        }
    }

    /// Read the value without checking the proof.
    ///
    /// Legitimate for a node reading its own state or for diagnostics; in a wallet it
    /// is a bug.
    pub fn value_unverified(&self) -> (v: Option<&[u8]>)
        ensures
            v.deep_view() == self.deep_view().value,
    {
        match &self.value {
            Some(bytes) => {
                let v = bytes.as_slice();
                assert(v.deep_view() =~= bytes.deep_view());
                Some(v)
            },
            None => None,
        }
    }
}

/// A transaction with an inclusion proof against its block's `tx_root`, and its receipt with one
/// against the `outcome_root`.
///
/// What is proved is that the transaction is in the block whose header the verifier holds. Where in
/// the block it sits is not: both the index and the size come from the prover.
#[derive(Debug, Clone, PartialEq, Eq)]
pub struct ProvedTransaction {
    height: Height,
    index: u32,
    total: u32,
    transaction: Transaction,
    siblings: Vec<Hash32>,
    receipt: TxReceipt,
    receipt_siblings: Vec<Hash32>,
}

/// The mathematical view of a [`ProvedTransaction`].
pub struct ProvedTxView {
    pub height: Height,
    pub index: u32,
    pub total: u32,
    pub transaction: TxView,
    pub siblings: Seq<Hash32>,
    pub receipt: ReceiptView,
    pub receipt_siblings: Seq<Hash32>,
}

impl DeepView for ProvedTransaction {
    type V = ProvedTxView;

    closed spec fn deep_view(&self) -> ProvedTxView {
        ProvedTxView {
            height: self.height.deep_view(),
            index: self.index.deep_view(),
            total: self.total.deep_view(),
            transaction: self.transaction.deep_view(),
            siblings: self.siblings.deep_view(),
            receipt: self.receipt.deep_view(),
            receipt_siblings: self.receipt_siblings.deep_view(),
        }
    }
}

impl ProvedTxView {
    /// Whether siblings lead from a leaf, at the place that the answer claims, to a
    /// root.
    pub open spec fn leads(self, siblings: Seq<Hash32>, leaf: Hash32, root: Hash32) -> bool {
        self.index < self.total && climbed(leaf, self.index as int, self.total as nat, siblings)
            == Some(root)
    }

    /// What is wrong with an answer, checked against a header, if anything.
    pub open spec fn complaint(self, header: BlockHeaderView) -> Option<LightError> {
        if header.height != self.height {
            Some(LightError::HeaderMismatch)
        } else if !self.leads(self.siblings, leaf_of(self.transaction.id().0@), header.tx_root)
            || !self.leads(
            self.receipt_siblings,
            leaf_of(TxReceipt::bytes_of(self.receipt)),
            header.outcome_root,
        ) || self.receipt.tx_id != self.transaction.id() {
            Some(LightError::BadProof)
        } else {
            None
        }
    }
}

/// What a verified [`ProvedTransaction`] yields: the transaction and what it did. Both
/// or neither.
#[derive(Debug, Clone, Copy, PartialEq, Eq)]
pub struct ProvedEffects<'a> {
    /// The transaction, proved against the header's `tx_root`.
    pub transaction: &'a Transaction,
    /// What it did, proved against the header's `outcome_root`.
    pub receipt: &'a TxReceipt,
}

impl ProvedTransaction {
    pub(crate) fn new(
        height: Height,
        index: u32,
        total: u32,
        transaction: Transaction,
        siblings: Vec<Hash32>,
        receipt: TxReceipt,
        receipt_siblings: Vec<Hash32>,
    ) -> (p: Self)
        ensures
            p.deep_view() == (ProvedTxView {
                height,
                index,
                total,
                transaction: transaction.deep_view(),
                siblings: siblings@,
                receipt: receipt.deep_view(),
                receipt_siblings: receipt_siblings@,
            }),
    {
        assert(siblings.deep_view() =~= siblings@);
        assert(receipt_siblings.deep_view() =~= receipt_siblings@);
        ProvedTransaction { height, index, total, transaction, siblings, receipt, receipt_siblings }
    }

    /// The block this transaction is claimed to be in.
    pub fn height(&self) -> (h: Height)
        ensures
            h == self.deep_view().height,
    {
        self.height
    }

    /// The position claimed by the server. Advisory: the verifier knows neither the
    /// position nor how many transactions the block held.
    pub fn index_unverified(&self) -> (i: u32)
        ensures
            i == self.deep_view().index,
    {
        self.index
    }

    /// Check the inclusion proofs against a header, and return the transaction and its
    /// receipt.
    ///
    /// `header` must be one the caller has already verified. The two trees have their
    /// leaves in the same order, so one position serves both, and the receipt must be
    /// about this transaction.
    pub fn verify(&self, header: &BlockHeader) -> (r: Result<ProvedEffects<'_>, LightError>)
        ensures
            match self.deep_view().complaint(header.deep_view()) {
                Some(e) => r matches Err(x) && x == e,
                None => r matches Ok(effects) && effects.transaction.deep_view()
                    == self.deep_view().transaction && effects.receipt.deep_view()
                    == self.deep_view().receipt,
            },
    {
        if header.height.0 != self.height.0 {
            return Err(LightError::HeaderMismatch);
        }
        let id = self.transaction.id();
        proof {
            assert(self.siblings.deep_view() =~= self.siblings@);
            assert(self.receipt_siblings.deep_view() =~= self.receipt_siblings@);
        }
        self.check(&self.siblings, header.tx_root, leaf_hash(id.as_bytes()))?;
        let receipt = self.receipt.to_bytes();
        self.check(&self.receipt_siblings, header.outcome_root, leaf_hash(receipt.as_slice()))?;
        if !self.receipt.tx_id.same(&id) {
            return Err(LightError::BadProof);
        }
        Ok(ProvedEffects { transaction: &self.transaction, receipt: &self.receipt })
    }

    fn check(&self, siblings: &Vec<Hash32>, root: Hash32, leaf: Hash32) -> (r: Result<
        (),
        LightError,
    >)
        ensures
            r == if self.deep_view().leads(siblings@, leaf, root) {
                Ok::<(), LightError>(())
            } else {
                Err(LightError::BadProof)
            },
    {
        let index: usize = self.index as usize;
        let total: usize = self.total as usize;
        let inclusion = MerkleProof { index, total, siblings: copied(siblings) };
        match inclusion.verify(root, leaf, index, total) {
            Ok(()) => Ok(()),
            Err(_) => Err(LightError::BadProof),
        }
    }

    /// Read the transaction without checking the proof.
    pub fn transaction_unverified(&self) -> (t: &Transaction)
        ensures
            t.deep_view() == self.deep_view().transaction,
    {
        &self.transaction
    }

    /// Read the receipt without checking the proof.
    pub fn receipt_unverified(&self) -> (t: &TxReceipt)
        ensures
            t.deep_view() == self.deep_view().receipt,
    {
        &self.receipt
    }
}

fn copied(hashes: &Vec<Hash32>) -> (out: Vec<Hash32>)
    ensures
        out@ == hashes@,
{
    let mut out: Vec<Hash32> = Vec::new();
    let mut i: usize = 0;
    while i < hashes.len()
        invariant
            i <= hashes@.len(),
            out@ =~= hashes@.take(i as int),
        decreases hashes@.len() - i,
    {
        out.push(hashes[i]);
        i += 1;
    }
    assert(hashes@.take(hashes@.len() as int) =~= hashes@);
    out
}

/// One entry in an account's history.
#[derive(Debug, Clone, Copy, PartialEq, Eq)]
pub struct HistoryEntry {
    /// Block the transaction was included in.
    pub height: Height,
    /// Position within that block.
    pub index: u32,
    /// The transaction's id.
    pub tx_id: Hash32,
}

impl DeepView for HistoryEntry {
    type V = HistoryEntry;

    open spec fn deep_view(&self) -> HistoryEntry {
        *self
    }
}

/// Which transactions touched an account: a hint, not a proof.
///
/// No header commits to a transaction index, so a server can omit entries. What it cannot do is
/// invent one: every entry names a transaction id, and [`Query::Transaction`] turns that into a
/// proof against a header.
#[derive(Debug, Clone, PartialEq, Eq)]
pub struct History {
    address: Address,
    entries: Vec<HistoryEntry>,
    truncated: bool,
}

/// The mathematical view of a [`History`].
pub struct HistoryView {
    pub address: Address,
    pub entries: Seq<HistoryEntry>,
    pub truncated: bool,
}

impl DeepView for History {
    type V = HistoryView;

    closed spec fn deep_view(&self) -> HistoryView {
        HistoryView {
            address: self.address.deep_view(),
            entries: self.entries.deep_view(),
            truncated: self.truncated.deep_view(),
        }
    }
}

impl History {
    /// Build a history answer.
    pub(crate) fn new(address: Address, entries: Vec<HistoryEntry>, truncated: bool) -> (h: Self)
        ensures
            h.deep_view() == (HistoryView { address, entries: entries@, truncated }),
    {
        assert(entries.deep_view() =~= entries@);
        History { address, entries, truncated }
    }

    /// The account this history is for.
    pub fn address(&self) -> (a: &Address)
        ensures
            *a == self.deep_view().address,
    {
        &self.address
    }

    /// Whether the scan stopped at the limit rather than at the end.
    pub fn truncated(&self) -> (b: bool)
        ensures
            b == self.deep_view().truncated,
    {
        self.truncated
    }

    /// The entries. Unverified, by construction.
    pub fn entries_unverified(&self) -> (e: &[HistoryEntry])
        ensures
            e@ == self.deep_view().entries,
    {
        assert(self.entries.deep_view() =~= self.entries@);
        self.entries.as_slice()
    }
}

/// What a server sends back.
#[derive(Debug, Clone, PartialEq, Eq)]
pub enum Response {
    /// Answer to [`Query::Status`].
    Status(Status),
    /// Answer to [`Query::Header`].
    Header(SignedHeader),
    /// Answer to any state query.
    Value(ProvedValue),
    /// Answer to [`Query::Block`].
    Block(Box<Block>),
    /// Answer to [`Query::Transaction`].
    Transaction(Box<ProvedTransaction>),
    /// Answer to [`Query::History`].
    History(History),
}

/// The mathematical view of a [`Response`].
pub enum ResponseView {
    Status(StatusView),
    Header(SignedHeaderView),
    Value(ProvedValueView),
    Block(BlockView),
    Transaction(ProvedTxView),
    History(HistoryView),
}

impl DeepView for Response {
    type V = ResponseView;

    open spec fn deep_view(&self) -> ResponseView {
        match *self {
            Response::Status(status) => ResponseView::Status(status.deep_view()),
            Response::Header(header) => ResponseView::Header(header.deep_view()),
            Response::Value(value) => ResponseView::Value(value.deep_view()),
            Response::Block(block) => ResponseView::Block(block.deep_view()),
            Response::Transaction(proved) => ResponseView::Transaction(proved.deep_view()),
            Response::History(history) => ResponseView::History(history.deep_view()),
        }
    }
}

impl Response {
    /// The proved value, if this response carries one.
    pub fn as_value(&self) -> (v: Option<&ProvedValue>)
        ensures
            match v {
                Some(v) => self.deep_view() == ResponseView::Value(v.deep_view()),
                None => !(self.deep_view() is Value),
            },
    {
        match self {
            Response::Value(v) => Some(v),
            _ => None,
        }
    }
}

/// A transaction and its receipt, proved at their place in trees that a header commits
/// to, pass the check against that header.
pub proof fn law_honest_transactions_verify(
    header: BlockHeaderView,
    p: ProvedTxView,
    transactions: Seq<Hash32>,
    receipts: Seq<Hash32>,
)
    requires
        header.height == p.height,
        header.tx_root == root_over(transactions),
        header.outcome_root == root_over(receipts),
        p.total == transactions.len(),
        p.total == receipts.len(),
        p.index < p.total,
        transactions[p.index as int] == leaf_of(p.transaction.id().0@),
        receipts[p.index as int] == leaf_of(TxReceipt::bytes_of(p.receipt)),
        p.siblings == path_to(transactions, p.index as int),
        p.receipt_siblings == path_to(receipts, p.index as int),
        p.receipt.tx_id == p.transaction.id(),
    ensures
        p.complaint(header) is None,
{
    law_inclusion_proofs_are_complete(transactions, p.index as int);
    law_inclusion_proofs_are_complete(receipts, p.index as int);
}

/// The identifiers of transactions, as a block's tree commits to them.
pub open spec fn id_items(ids: Seq<Hash32>) -> Seq<Seq<u8>> {
    Seq::new(ids.len(), |i: int| ids[i].0@)
}

/// Receipts, as a block's tree commits to them.
pub open spec fn receipt_items(receipts: Seq<ReceiptView>) -> Seq<Seq<u8>> {
    Seq::new(receipts.len(), |i: int| TxReceipt::bytes_of(receipts[i]))
}

/// Whether a set holds everything that is hashed to build a block's two trees, and to
/// check an answer against them.
pub open spec fn hashed_for_answer(
    hashed: Set<Preimage>,
    p: ProvedTxView,
    ids: Seq<Hash32>,
    receipts: Seq<ReceiptView>,
) -> bool {
    &&& all_hashed(
        hashed,
        id_items(ids),
        p.transaction.id().0@,
        p.index as int,
        p.total as nat,
        p.siblings,
    )
    &&& all_hashed(
        hashed,
        receipt_items(receipts),
        TxReceipt::bytes_of(p.receipt),
        p.index as int,
        p.total as nat,
        p.receipt_siblings,
    )
}

/// An answer that passes the check names a transaction of the block behind the header
/// and the receipt of one: a server cannot substitute either and keep its proof,
/// unless hashes clash.
pub proof fn law_accepted_answers_are_in_the_block(
    header: BlockHeaderView,
    p: ProvedTxView,
    ids: Seq<Hash32>,
    receipts: Seq<ReceiptView>,
    hashed: Set<Preimage>,
)
    requires
        p.complaint(header) is None,
        header.tx_root == root_over(leaves_of(id_items(ids))),
        header.outcome_root == root_over(leaves_of(receipt_items(receipts))),
        clash_free(hashed),
        hashed_for_answer(hashed, p, ids, receipts),
        TxReceipt::valid(p.receipt),
        forall|i: int| 0 <= i < receipts.len() ==> TxReceipt::valid(#[trigger] receipts[i]),
    ensures
        ids.contains(p.transaction.id()),
        receipts.contains(p.receipt),
        p.receipt.tx_id == p.transaction.id(),
{
    let (place, size) = (p.index as int, p.total as nat);
    let id = p.transaction.id();
    law_only_members_have_inclusion_proofs(
        id_items(ids),
        id.0@,
        place,
        size,
        p.siblings,
        hashed,
    );
    let i = choose|i: int| 0 <= i < ids.len() && id_items(ids)[i] == id.0@;
    assert(ids[i].0@ == id.0@);
    assert(ids[i].0 =~= id.0);
    assert(ids[i] == id);
    let bytes = TxReceipt::bytes_of(p.receipt);
    law_only_members_have_inclusion_proofs(
        receipt_items(receipts),
        bytes,
        place,
        size,
        p.receipt_siblings,
        hashed,
    );
    let j = choose|j: int| 0 <= j < receipts.len() && receipt_items(receipts)[j] == bytes;
    assert(TxReceipt::bytes_of(receipts[j]) == bytes);
    law_encoding_is_injective::<TxReceipt>(receipts[j], p.receipt);
    assert(receipts[j] == p.receipt);
}

impl Encode for Query {
    open spec fn bytes_of(v: QueryView) -> Seq<u8> {
        match v {
            QueryView::Status => u8::bytes_of(0),
            QueryView::Header { height } => u8::bytes_of(1) + Height::bytes_of(
                height,
            ),
            QueryView::Balance { address, denom } => u8::bytes_of(2) + <(Address, Denom)>::bytes_of(
                (address, denom),
            ),
            QueryView::Account { address } => u8::bytes_of(3) + Address::bytes_of(
                address,
            ),
            QueryView::Supply { denom } => u8::bytes_of(4) + Denom::bytes_of(
                denom,
            ),
            QueryView::Issuer { denom } => u8::bytes_of(5) + Denom::bytes_of(
                denom,
            ),
            QueryView::Frozen { denom, address } => u8::bytes_of(6) + <(Denom, Address)>::bytes_of(
                (denom, address),
            ),
            QueryView::ResolveName { name } => u8::bytes_of(7) + Username::bytes_of(
                name,
            ),
            QueryView::ResolveContact { commitment } =>
                u8::bytes_of(8) + ContactCommitment::bytes_of(
                commitment,
            ),
            QueryView::PrimaryAlias { address } => u8::bytes_of(9) + Address::bytes_of(
                address,
            ),
            QueryView::Block { height } => u8::bytes_of(10) + Height::bytes_of(
                height,
            ),
            QueryView::Transaction { id } => u8::bytes_of(11) + Hash32::bytes_of(
                id,
            ),
            QueryView::History { address, from, limit } =>
                u8::bytes_of(12) + <(Address, (Height, u32))>::bytes_of(
                (address, (from, limit)),
            ),
        }
    }

    fn encode(&self, out: &mut Vec<u8>) {
        match self {
            Query::Status => 0u8.encode(out),
            Query::Header { height } => wire::encode_tagged(1, height, out),
            Query::Balance { address, denom } => wire::encode_tagged2(2, address, denom, out),
            Query::Account { address } => wire::encode_tagged(3, address, out),
            Query::Supply { denom } => wire::encode_tagged(4, denom, out),
            Query::Issuer { denom } => wire::encode_tagged(5, denom, out),
            Query::Frozen { denom, address } => wire::encode_tagged2(6, denom, address, out),
            Query::ResolveName { name } => wire::encode_tagged(7, name, out),
            Query::ResolveContact { commitment } => wire::encode_tagged(8, commitment, out),
            Query::PrimaryAlias { address } => wire::encode_tagged(9, address, out),
            Query::Block { height } => wire::encode_tagged(10, height, out),
            Query::Transaction { id } => wire::encode_tagged(11, id, out),
            Query::History { address, from, limit } => {
                wire::encode_tagged3(12, address, from, limit, out)
            },
        }
    }
}

impl Decode for Query {
    open spec fn parse(s: Seq<u8>) -> Parsed<QueryView> {
        u8::parse(s).and_then(
            |tag: u8, rest: Seq<u8>|
                if tag == 0 {
                    Parsed { value: Ok(QueryView::Status), rest }
                } else if tag == 1 {
                    Height::parse(rest).map(
                        |t: Height|
                            QueryView::Header { height: t },
                    )
                } else if tag == 2 {
                    <(Address, Denom)>::parse(rest).map(
                        |t: (Address, Seq<char>)|
                            QueryView::Balance { address: t.0, denom: t.1 },
                    )
                } else if tag == 3 {
                    Address::parse(rest).map(
                        |t: Address|
                            QueryView::Account { address: t },
                    )
                } else if tag == 4 {
                    Denom::parse(rest).map(
                        |t: Seq<char>|
                            QueryView::Supply { denom: t },
                    )
                } else if tag == 5 {
                    Denom::parse(rest).map(
                        |t: Seq<char>|
                            QueryView::Issuer { denom: t },
                    )
                } else if tag == 6 {
                    <(Denom, Address)>::parse(rest).map(
                        |t: (Seq<char>, Address)|
                            QueryView::Frozen { denom: t.0, address: t.1 },
                    )
                } else if tag == 7 {
                    Username::parse(rest).map(
                        |t: Seq<char>|
                            QueryView::ResolveName { name: t },
                    )
                } else if tag == 8 {
                    ContactCommitment::parse(rest).map(
                        |t: ContactCommitment|
                            QueryView::ResolveContact { commitment: t },
                    )
                } else if tag == 9 {
                    Address::parse(rest).map(
                        |t: Address|
                            QueryView::PrimaryAlias { address: t },
                    )
                } else if tag == 10 {
                    Height::parse(rest).map(
                        |t: Height|
                            QueryView::Block { height: t },
                    )
                } else if tag == 11 {
                    Hash32::parse(rest).map(
                        |t: Hash32|
                            QueryView::Transaction { id: t },
                    )
                } else if tag == 12 {
                    <(Address, (Height, u32))>::parse(rest).map(
                        |t: (Address, (Height, u32))|
                            QueryView::History { address: t.0, from: t.1.0, limit: t.1.1 },
                    )
                } else {
                    fault(CodecFault::UnknownDiscriminant { tag, what: "Query"@ }, rest)
                },
        )
    }

    fn decode(r: &mut Reader<'_>) -> (res: Result<Self, CodecError>) {
        let tag: u8 = u8::decode(r)?;
        match tag {
            0 => Ok(Query::Status),
            1 => {
                let height = Height::decode(r)?;
                Ok(Query::Header { height })
            },
            2 => {
                let (address, denom) = <(Address, Denom)>::decode(r)?;
                Ok(Query::Balance { address, denom })
            },
            3 => {
                let address = Address::decode(r)?;
                Ok(Query::Account { address })
            },
            4 => {
                let denom = Denom::decode(r)?;
                Ok(Query::Supply { denom })
            },
            5 => {
                let denom = Denom::decode(r)?;
                Ok(Query::Issuer { denom })
            },
            6 => {
                let (denom, address) = <(Denom, Address)>::decode(r)?;
                Ok(Query::Frozen { denom, address })
            },
            7 => {
                let name = Username::decode(r)?;
                Ok(Query::ResolveName { name })
            },
            8 => {
                let commitment = ContactCommitment::decode(r)?;
                Ok(Query::ResolveContact { commitment })
            },
            9 => {
                let address = Address::decode(r)?;
                Ok(Query::PrimaryAlias { address })
            },
            10 => {
                let height = Height::decode(r)?;
                Ok(Query::Block { height })
            },
            11 => {
                let id = Hash32::decode(r)?;
                Ok(Query::Transaction { id })
            },
            12 => {
                let (address, (from, limit)) = <(Address, (Height, u32))>::decode(r)?;
                Ok(Query::History { address, from, limit })
            },
            _ => Err(CodecError::UnknownDiscriminant { tag, what: "Query" }),
        }
    }
}

impl Canonical for Query {
    open spec fn valid(v: QueryView) -> bool {
        match v {
            QueryView::Status => true,
            QueryView::Header { height } => Height::valid(height),
            QueryView::Balance { address, denom } => <(Address, Denom)>::valid((address, denom)),
            QueryView::Account { address } => Address::valid(address),
            QueryView::Supply { denom } => Denom::valid(denom),
            QueryView::Issuer { denom } => Denom::valid(denom),
            QueryView::Frozen { denom, address } => <(Denom, Address)>::valid((denom, address)),
            QueryView::ResolveName { name } => Username::valid(name),
            QueryView::ResolveContact { commitment } => ContactCommitment::valid(commitment),
            QueryView::PrimaryAlias { address } => Address::valid(address),
            QueryView::Block { height } => Height::valid(height),
            QueryView::Transaction { id } => Hash32::valid(id),
            QueryView::History { address, from, limit } =>
                <(Address, (Height, u32))>::valid((address, (from, limit))),
        }
    }

    proof fn round_trip(v: QueryView, tail: Seq<u8>) {
        match v {
            QueryView::Status => {
                u8::round_trip(0, tail);
            },
            QueryView::Header { height } => {
                let t = height;
                wire::lemma_tagged_round_trip::<Height>(1, t, tail);
            },
            QueryView::Balance { address, denom } => {
                let t = (address, denom);
                wire::lemma_tagged_round_trip::<(Address, Denom)>(2, t, tail);
            },
            QueryView::Account { address } => {
                let t = address;
                wire::lemma_tagged_round_trip::<Address>(3, t, tail);
            },
            QueryView::Supply { denom } => {
                let t = denom;
                wire::lemma_tagged_round_trip::<Denom>(4, t, tail);
            },
            QueryView::Issuer { denom } => {
                let t = denom;
                wire::lemma_tagged_round_trip::<Denom>(5, t, tail);
            },
            QueryView::Frozen { denom, address } => {
                let t = (denom, address);
                wire::lemma_tagged_round_trip::<(Denom, Address)>(6, t, tail);
            },
            QueryView::ResolveName { name } => {
                let t = name;
                wire::lemma_tagged_round_trip::<Username>(7, t, tail);
            },
            QueryView::ResolveContact { commitment } => {
                let t = commitment;
                wire::lemma_tagged_round_trip::<ContactCommitment>(8, t, tail);
            },
            QueryView::PrimaryAlias { address } => {
                let t = address;
                wire::lemma_tagged_round_trip::<Address>(9, t, tail);
            },
            QueryView::Block { height } => {
                let t = height;
                wire::lemma_tagged_round_trip::<Height>(10, t, tail);
            },
            QueryView::Transaction { id } => {
                let t = id;
                wire::lemma_tagged_round_trip::<Hash32>(11, t, tail);
            },
            QueryView::History { address, from, limit } => {
                let t = (address, (from, limit));
                wire::lemma_tagged_round_trip::<(Address, (Height, u32))>(12, t, tail);
            },
        }
    }

    proof fn one_encoding(s: Seq<u8>) {
        u8::one_encoding(s);
        let rest = u8::parse(s).rest;
        if let Ok(tag) = u8::parse(s).value {
            if tag == 1 {
                if Height::parse(rest).value is Ok {
                    wire::lemma_tagged_one_encoding::<Height>(1, s);
                }
            } else if tag == 2 {
                if <(Address, Denom)>::parse(rest).value is Ok {
                    wire::lemma_tagged_one_encoding::<(Address, Denom)>(2, s);
                }
            } else if tag == 3 {
                if Address::parse(rest).value is Ok {
                    wire::lemma_tagged_one_encoding::<Address>(3, s);
                }
            } else if tag == 4 {
                if Denom::parse(rest).value is Ok {
                    wire::lemma_tagged_one_encoding::<Denom>(4, s);
                }
            } else if tag == 5 {
                if Denom::parse(rest).value is Ok {
                    wire::lemma_tagged_one_encoding::<Denom>(5, s);
                }
            } else if tag == 6 {
                if <(Denom, Address)>::parse(rest).value is Ok {
                    wire::lemma_tagged_one_encoding::<(Denom, Address)>(6, s);
                }
            } else if tag == 7 {
                if Username::parse(rest).value is Ok {
                    wire::lemma_tagged_one_encoding::<Username>(7, s);
                }
            } else if tag == 8 {
                if ContactCommitment::parse(rest).value is Ok {
                    wire::lemma_tagged_one_encoding::<ContactCommitment>(8, s);
                }
            } else if tag == 9 {
                if Address::parse(rest).value is Ok {
                    wire::lemma_tagged_one_encoding::<Address>(9, s);
                }
            } else if tag == 10 {
                if Height::parse(rest).value is Ok {
                    wire::lemma_tagged_one_encoding::<Height>(10, s);
                }
            } else if tag == 11 {
                if Hash32::parse(rest).value is Ok {
                    wire::lemma_tagged_one_encoding::<Hash32>(11, s);
                }
            } else if tag == 12 {
                if <(Address, (Height, u32))>::parse(rest).value is Ok {
                    wire::lemma_tagged_one_encoding::<(Address, (Height, u32))>(12, s);
                }
            }
        }
    }
}

/// The bytes of a signed header.
#[verifier::opaque]
pub open spec fn signed_header_bytes(v: SignedHeaderView) -> Seq<u8> {
    <(BlockHeader, Commit)>::bytes_of((v.header, v.commit))
}

/// Reading a signed header.
#[verifier::opaque]
pub open spec fn parse_signed_header(s: Seq<u8>) -> Parsed<SignedHeaderView> {
    <(BlockHeader, Commit)>::parse(s).map(
        |t: (BlockHeaderView, CommitView)|
            SignedHeaderView { header: t.0, commit: t.1 },
    )
}

/// Whether the wire format admits a signed header.
#[verifier::opaque]
pub open spec fn signed_header_valid(v: SignedHeaderView) -> bool {
    <(BlockHeader, Commit)>::valid((v.header, v.commit))
}

impl Encode for SignedHeader {
    open spec fn bytes_of(v: SignedHeaderView) -> Seq<u8> {
        signed_header_bytes(v)
    }

    fn encode(&self, out: &mut Vec<u8>) {
        broadcast use wire::lemma_concat_assoc;

        reveal(signed_header_bytes);
        self.header.encode(out);
        self.commit.encode(out);
    }
}

impl Decode for SignedHeader {
    open spec fn parse(s: Seq<u8>) -> Parsed<SignedHeaderView> {
        parse_signed_header(s)
    }

    fn decode(r: &mut Reader<'_>) -> (res: Result<Self, CodecError>) {
        reveal(parse_signed_header);
        let header = BlockHeader::decode(r)?;
        let commit = Commit::decode(r)?;
        Ok(SignedHeader { header, commit })
    }
}

impl Canonical for SignedHeader {
    open spec fn valid(v: SignedHeaderView) -> bool {
        signed_header_valid(v)
    }

    proof fn round_trip(v: SignedHeaderView, tail: Seq<u8>) {
        reveal(signed_header_bytes);
        reveal(parse_signed_header);
        reveal(signed_header_valid);
        <(BlockHeader, Commit)>::round_trip((v.header, v.commit), tail);
    }

    proof fn one_encoding(s: Seq<u8>) {
        reveal(signed_header_bytes);
        reveal(parse_signed_header);
        reveal(signed_header_valid);
        <(BlockHeader, Commit)>::one_encoding(s);
    }
}

/// The bytes of a status.
#[verifier::opaque]
pub open spec fn status_bytes(v: StatusView) -> Seq<u8> {
    <(ChainId, SignedHeader)>::bytes_of((v.chain_id, v.tip))
}

/// Reading a status.
#[verifier::opaque]
pub open spec fn parse_status(s: Seq<u8>) -> Parsed<StatusView> {
    <(ChainId, SignedHeader)>::parse(s).map(
        |t: (Seq<char>, SignedHeaderView)|
            StatusView { chain_id: t.0, tip: t.1 },
    )
}

/// Whether the wire format admits a status.
#[verifier::opaque]
pub open spec fn status_valid(v: StatusView) -> bool {
    <(ChainId, SignedHeader)>::valid((v.chain_id, v.tip))
}

impl Encode for Status {
    open spec fn bytes_of(v: StatusView) -> Seq<u8> {
        status_bytes(v)
    }

    fn encode(&self, out: &mut Vec<u8>) {
        broadcast use wire::lemma_concat_assoc;

        reveal(status_bytes);
        self.chain_id.encode(out);
        self.tip.encode(out);
    }
}

impl Decode for Status {
    open spec fn parse(s: Seq<u8>) -> Parsed<StatusView> {
        parse_status(s)
    }

    fn decode(r: &mut Reader<'_>) -> (res: Result<Self, CodecError>) {
        reveal(parse_status);
        let chain_id = ChainId::decode(r)?;
        let tip = SignedHeader::decode(r)?;
        Ok(Status { chain_id, tip })
    }
}

impl Canonical for Status {
    open spec fn valid(v: StatusView) -> bool {
        status_valid(v)
    }

    proof fn round_trip(v: StatusView, tail: Seq<u8>) {
        reveal(status_bytes);
        reveal(parse_status);
        reveal(status_valid);
        <(ChainId, SignedHeader)>::round_trip((v.chain_id, v.tip), tail);
    }

    proof fn one_encoding(s: Seq<u8>) {
        reveal(status_bytes);
        reveal(parse_status);
        reveal(status_valid);
        <(ChainId, SignedHeader)>::one_encoding(s);
    }
}

/// The bytes of a proved value.
#[verifier::opaque]
pub open spec fn proved_value_bytes(v: ProvedValueView) -> Seq<u8> {
    <(Height, (Option<Vec<u8>>, Proof))>::bytes_of((v.height, (v.value, v.evidence)))
}

/// Reading a proved value.
#[verifier::opaque]
pub open spec fn parse_proved_value(s: Seq<u8>) -> Parsed<ProvedValueView> {
    <(Height, (Option<Vec<u8>>, Proof))>::parse(s).map(
        |t: (Height, (Option<Seq<u8>>, ProofView))|
            ProvedValueView { height: t.0, value: t.1.0, evidence: t.1.1 },
    )
}

/// Whether the wire format admits a proved value.
#[verifier::opaque]
pub open spec fn proved_value_valid(v: ProvedValueView) -> bool {
    <(Height, (Option<Vec<u8>>, Proof))>::valid((v.height, (v.value, v.evidence)))
}

impl Encode for ProvedValue {
    open spec fn bytes_of(v: ProvedValueView) -> Seq<u8> {
        proved_value_bytes(v)
    }

    fn encode(&self, out: &mut Vec<u8>) {
        broadcast use wire::lemma_concat_assoc;

        reveal(proved_value_bytes);
        self.height.encode(out);
        self.value.encode(out);
        self.evidence.encode(out);
    }
}

impl Decode for ProvedValue {
    open spec fn parse(s: Seq<u8>) -> Parsed<ProvedValueView> {
        parse_proved_value(s)
    }

    fn decode(r: &mut Reader<'_>) -> (res: Result<Self, CodecError>) {
        reveal(parse_proved_value);
        let height = Height::decode(r)?;
        let value = Option::<Vec<u8>>::decode(r)?;
        let evidence = Proof::decode(r)?;
        Ok(ProvedValue { height, value, evidence })
    }
}

impl Canonical for ProvedValue {
    open spec fn valid(v: ProvedValueView) -> bool {
        proved_value_valid(v)
    }

    proof fn round_trip(v: ProvedValueView, tail: Seq<u8>) {
        reveal(proved_value_bytes);
        reveal(parse_proved_value);
        reveal(proved_value_valid);
        <(Height, (Option<Vec<u8>>, Proof))>::round_trip((v.height, (v.value, v.evidence)), tail);
    }

    proof fn one_encoding(s: Seq<u8>) {
        reveal(proved_value_bytes);
        reveal(parse_proved_value);
        reveal(proved_value_valid);
        <(Height, (Option<Vec<u8>>, Proof))>::one_encoding(s);
    }
}

/// The bytes of a proved transaction.
#[verifier::opaque]
pub open spec fn proved_tx_bytes(v: ProvedTxView) -> Seq<u8> {
    ProvedFields::bytes_of(
        (
            v.height,
            (v.index, (v.total, (v.transaction, (v.siblings, (v.receipt, v.receipt_siblings))))),
        )
    )
}

/// Reading a proved transaction.
#[verifier::opaque]
pub open spec fn parse_proved_tx(s: Seq<u8>) -> Parsed<ProvedTxView> {
    ProvedFields::parse(s).map(
        |t: (Height, (u32, (u32, (TxView, (Seq<Hash32>, (ReceiptView, Seq<Hash32>))))))|
            ProvedTxView {
                height: t.0,
                index: t.1.0,
                total: t.1.1.0,
                transaction: t.1.1.1.0,
                siblings: t.1.1.1.1.0,
                receipt: t.1.1.1.1.1.0,
                receipt_siblings: t.1.1.1.1.1.1,
            },
    )
}

/// Whether the wire format admits a proved transaction.
#[verifier::opaque]
pub open spec fn proved_tx_valid(v: ProvedTxView) -> bool {
    ProvedFields::valid(
        (
            v.height,
            (v.index, (v.total, (v.transaction, (v.siblings, (v.receipt, v.receipt_siblings))))),
        )
    )
}

impl Encode for ProvedTransaction {
    open spec fn bytes_of(v: ProvedTxView) -> Seq<u8> {
        proved_tx_bytes(v)
    }

    fn encode(&self, out: &mut Vec<u8>) {
        reveal(proved_tx_bytes);
        wire::encode7(
            &self.height,
            &self.index,
            &self.total,
            &self.transaction,
            &self.siblings,
            &self.receipt,
            &self.receipt_siblings,
            out,
        );
    }
}

impl Decode for ProvedTransaction {
    open spec fn parse(s: Seq<u8>) -> Parsed<ProvedTxView> {
        parse_proved_tx(s)
    }

    fn decode(r: &mut Reader<'_>) -> (res: Result<Self, CodecError>) {
        reveal(parse_proved_tx);
        let height = Height::decode(r)?;
        let index: u32 = u32::decode(r)?;
        let total: u32 = u32::decode(r)?;
        let transaction = Transaction::decode(r)?;
        let siblings = Vec::<Hash32>::decode(r)?;
        let receipt = TxReceipt::decode(r)?;
        let receipt_siblings = Vec::<Hash32>::decode(r)?;
        Ok(
            ProvedTransaction {
                height,
                index,
                total,
                transaction,
                siblings,
                receipt,
                receipt_siblings,
            }
        )
    }
}

impl Canonical for ProvedTransaction {
    open spec fn valid(v: ProvedTxView) -> bool {
        proved_tx_valid(v)
    }

    proof fn round_trip(v: ProvedTxView, tail: Seq<u8>) {
        reveal(proved_tx_bytes);
        reveal(parse_proved_tx);
        reveal(proved_tx_valid);
        ProvedFields::round_trip(
            (
                v.height,
                (
                    v.index,
                    (v.total, (v.transaction, (v.siblings, (v.receipt, v.receipt_siblings)))),
                ),
            ),
            tail,
        );
    }

    proof fn one_encoding(s: Seq<u8>) {
        reveal(proved_tx_bytes);
        reveal(parse_proved_tx);
        reveal(proved_tx_valid);
        ProvedFields::one_encoding(s);
    }
}

impl Encode for HistoryEntry {
    open spec fn bytes_of(v: HistoryEntry) -> Seq<u8> {
        <(Height, (u32, Hash32))>::bytes_of((v.height, (v.index, v.tx_id)))
    }

    fn encode(&self, out: &mut Vec<u8>) {
        broadcast use wire::lemma_concat_assoc;

        self.height.encode(out);
        self.index.encode(out);
        self.tx_id.encode(out);
    }
}

impl Decode for HistoryEntry {
    open spec fn parse(s: Seq<u8>) -> Parsed<HistoryEntry> {
        <(Height, (u32, Hash32))>::parse(s).map(
            |t: (Height, (u32, Hash32))|
                HistoryEntry { height: t.0, index: t.1.0, tx_id: t.1.1 },
        )
    }

    fn decode(r: &mut Reader<'_>) -> (res: Result<Self, CodecError>) {
        let height = Height::decode(r)?;
        let index: u32 = u32::decode(r)?;
        let tx_id = Hash32::decode(r)?;
        Ok(HistoryEntry { height, index, tx_id })
    }
}

impl Canonical for HistoryEntry {
    open spec fn valid(v: HistoryEntry) -> bool {
        <(Height, (u32, Hash32))>::valid((v.height, (v.index, v.tx_id)))
    }

    proof fn round_trip(v: HistoryEntry, tail: Seq<u8>) {
        <(Height, (u32, Hash32))>::round_trip((v.height, (v.index, v.tx_id)), tail);
    }

    proof fn one_encoding(s: Seq<u8>) {
        <(Height, (u32, Hash32))>::one_encoding(s);
    }
}

/// The bytes of a history.
#[verifier::opaque]
pub open spec fn history_bytes(v: HistoryView) -> Seq<u8> {
    <(Address, (Vec<HistoryEntry>, bool))>::bytes_of((v.address, (v.entries, v.truncated)))
}

/// Reading a history.
#[verifier::opaque]
pub open spec fn parse_history(s: Seq<u8>) -> Parsed<HistoryView> {
    <(Address, (Vec<HistoryEntry>, bool))>::parse(s).map(
        |t: (Address, (Seq<HistoryEntry>, bool))|
            HistoryView { address: t.0, entries: t.1.0, truncated: t.1.1 },
    )
}

/// Whether the wire format admits a history.
#[verifier::opaque]
pub open spec fn history_valid(v: HistoryView) -> bool {
    <(Address, (Vec<HistoryEntry>, bool))>::valid((v.address, (v.entries, v.truncated)))
}

impl Encode for History {
    open spec fn bytes_of(v: HistoryView) -> Seq<u8> {
        history_bytes(v)
    }

    fn encode(&self, out: &mut Vec<u8>) {
        broadcast use wire::lemma_concat_assoc;

        reveal(history_bytes);
        self.address.encode(out);
        self.entries.encode(out);
        self.truncated.encode(out);
    }
}

impl Decode for History {
    open spec fn parse(s: Seq<u8>) -> Parsed<HistoryView> {
        parse_history(s)
    }

    fn decode(r: &mut Reader<'_>) -> (res: Result<Self, CodecError>) {
        reveal(parse_history);
        let address = Address::decode(r)?;
        let entries = Vec::<HistoryEntry>::decode(r)?;
        let truncated = bool::decode(r)?;
        Ok(History { address, entries, truncated })
    }
}

impl Canonical for History {
    open spec fn valid(v: HistoryView) -> bool {
        history_valid(v)
    }

    proof fn round_trip(v: HistoryView, tail: Seq<u8>) {
        reveal(history_bytes);
        reveal(parse_history);
        reveal(history_valid);
        <(Address, (Vec<HistoryEntry>, bool))>::round_trip(
            (v.address, (v.entries, v.truncated)),
            tail,
        );
    }

    proof fn one_encoding(s: Seq<u8>) {
        reveal(history_bytes);
        reveal(parse_history);
        reveal(history_valid);
        <(Address, (Vec<HistoryEntry>, bool))>::one_encoding(s);
    }
}

impl Encode for Response {
    open spec fn bytes_of(v: ResponseView) -> Seq<u8> {
        match v {
            ResponseView::Status(status) => u8::bytes_of(0) + Status::bytes_of(
                status,
            ),
            ResponseView::Header(header) => u8::bytes_of(1) + SignedHeader::bytes_of(
                header,
            ),
            ResponseView::Value(value) => u8::bytes_of(2) + ProvedValue::bytes_of(
                value,
            ),
            ResponseView::Block(block) => u8::bytes_of(3) + Block::bytes_of(
                block,
            ),
            ResponseView::Transaction(proved) => u8::bytes_of(4) + ProvedTransaction::bytes_of(
                proved,
            ),
            ResponseView::History(history) => u8::bytes_of(5) + History::bytes_of(
                history,
            ),
        }
    }

    fn encode(&self, out: &mut Vec<u8>) {
        match self {
            Response::Status(status) => wire::encode_tagged(0, status, out),
            Response::Header(header) => wire::encode_tagged(1, header, out),
            Response::Value(value) => wire::encode_tagged(2, value, out),
            Response::Block(block) => wire::encode_tagged(3, &**block, out),
            Response::Transaction(proved) => wire::encode_tagged(4, &**proved, out),
            Response::History(history) => wire::encode_tagged(5, history, out),
        }
    }
}

impl Decode for Response {
    open spec fn parse(s: Seq<u8>) -> Parsed<ResponseView> {
        u8::parse(s).and_then(
            |tag: u8, rest: Seq<u8>|
                if tag == 0 {
                    Status::parse(rest).map(
                        |t: StatusView|
                            ResponseView::Status(t),
                    )
                } else if tag == 1 {
                    SignedHeader::parse(rest).map(
                        |t: SignedHeaderView|
                            ResponseView::Header(t),
                    )
                } else if tag == 2 {
                    ProvedValue::parse(rest).map(
                        |t: ProvedValueView|
                            ResponseView::Value(t),
                    )
                } else if tag == 3 {
                    Block::parse(rest).map(
                        |t: BlockView|
                            ResponseView::Block(t),
                    )
                } else if tag == 4 {
                    ProvedTransaction::parse(rest).map(
                        |t: ProvedTxView|
                            ResponseView::Transaction(t),
                    )
                } else if tag == 5 {
                    History::parse(rest).map(
                        |t: HistoryView|
                            ResponseView::History(t),
                    )
                } else {
                    fault(CodecFault::UnknownDiscriminant { tag, what: "Response"@ }, rest)
                },
        )
    }

    fn decode(r: &mut Reader<'_>) -> (res: Result<Self, CodecError>) {
        let tag: u8 = u8::decode(r)?;
        match tag {
            0 => {
                let status = Status::decode(r)?;
                Ok(Response::Status(status))
            },
            1 => {
                let header = SignedHeader::decode(r)?;
                Ok(Response::Header(header))
            },
            2 => {
                let value = ProvedValue::decode(r)?;
                Ok(Response::Value(value))
            },
            3 => {
                let block = Block::decode(r)?;
                Ok(Response::Block(Box::new(block)))
            },
            4 => {
                let proved = ProvedTransaction::decode(r)?;
                Ok(Response::Transaction(Box::new(proved)))
            },
            5 => {
                let history = History::decode(r)?;
                Ok(Response::History(history))
            },
            _ => Err(CodecError::UnknownDiscriminant { tag, what: "Response" }),
        }
    }
}

impl Canonical for Response {
    open spec fn valid(v: ResponseView) -> bool {
        match v {
            ResponseView::Status(status) => Status::valid(status),
            ResponseView::Header(header) => SignedHeader::valid(header),
            ResponseView::Value(value) => ProvedValue::valid(value),
            ResponseView::Block(block) => Block::valid(block),
            ResponseView::Transaction(proved) => ProvedTransaction::valid(proved),
            ResponseView::History(history) => History::valid(history),
        }
    }

    proof fn round_trip(v: ResponseView, tail: Seq<u8>) {
        match v {
            ResponseView::Status(status) => {
                let t = status;
                wire::lemma_tagged_round_trip::<Status>(0, t, tail);
            },
            ResponseView::Header(header) => {
                let t = header;
                wire::lemma_tagged_round_trip::<SignedHeader>(1, t, tail);
            },
            ResponseView::Value(value) => {
                let t = value;
                wire::lemma_tagged_round_trip::<ProvedValue>(2, t, tail);
            },
            ResponseView::Block(block) => {
                let t = block;
                wire::lemma_tagged_round_trip::<Block>(3, t, tail);
            },
            ResponseView::Transaction(proved) => {
                let t = proved;
                wire::lemma_tagged_round_trip::<ProvedTransaction>(4, t, tail);
            },
            ResponseView::History(history) => {
                let t = history;
                wire::lemma_tagged_round_trip::<History>(5, t, tail);
            },
        }
    }

    proof fn one_encoding(s: Seq<u8>) {
        u8::one_encoding(s);
        let rest = u8::parse(s).rest;
        if let Ok(tag) = u8::parse(s).value {
            if tag == 0 {
                if Status::parse(rest).value is Ok {
                    wire::lemma_tagged_one_encoding::<Status>(0, s);
                }
            } else if tag == 1 {
                if SignedHeader::parse(rest).value is Ok {
                    wire::lemma_tagged_one_encoding::<SignedHeader>(1, s);
                }
            } else if tag == 2 {
                if ProvedValue::parse(rest).value is Ok {
                    wire::lemma_tagged_one_encoding::<ProvedValue>(2, s);
                }
            } else if tag == 3 {
                if Block::parse(rest).value is Ok {
                    wire::lemma_tagged_one_encoding::<Block>(3, s);
                }
            } else if tag == 4 {
                if ProvedTransaction::parse(rest).value is Ok {
                    wire::lemma_tagged_one_encoding::<ProvedTransaction>(4, s);
                }
            } else if tag == 5 {
                if History::parse(rest).value is Ok {
                    wire::lemma_tagged_one_encoding::<History>(5, s);
                }
            }
        }
    }
}

} // verus!
