//! Answering queries: a pure function from a [`ChainView`] to a [`Response`].

use crate::chain::{Block, BlockHeaderView, BlockView, ReceiptView, TxReceipt};
use crate::crypto::address::Address;
use crate::crypto::hash::Hash32;
use crate::crypto::merkle::{leaves_of, path_to, root_over, MerkleTree};
use crate::primitives::codec::Encode;
use crate::primitives::ids::{ChainId, Height};
use crate::primitives::text;
use crate::rpc::query::{
    id_items, law_honest_transactions_verify, receipt_items, History, HistoryEntry, HistoryView,
    ProvedTransaction, ProvedTxView, ProvedValue, ProvedValueView, Query, QueryError, QueryFault,
    QueryView, Response, ResponseView, SignedHeader, SignedHeaderView, Status, StatusView,
    MAX_HISTORY,
};
use crate::state::membership::{Proof, ProofView};
use crate::state::store::StoreKey;
use crate::types::tx::{Transaction, TxView};
use vstd::prelude::*;

verus! {

/// The view of a reply.
pub open spec fn replied<T: DeepView>(r: Result<T, QueryError>) -> Result<T::V, QueryFault> {
    match r {
        Ok(v) => Ok(v.deep_view()),
        Err(e) => Err(e.deep_view()),
    }
}

/// The view of a reply about where a transaction sits.
pub open spec fn replied_place(r: Result<Option<(Height, u32)>, QueryError>) -> Result<
    Option<(Height, u32)>,
    QueryFault,
> {
    match r {
        Ok(v) => Ok(v),
        Err(e) => Err(e.deep_view()),
    }
}

/// The view of a reply about an account's history.
pub open spec fn replied_history(
    r: Result<Option<(Vec<HistoryEntry>, bool)>, QueryError>,
) -> Result<Option<(Seq<HistoryEntry>, bool)>, QueryFault> {
    match r {
        Ok(Some((entries, truncated))) => Ok(Some((entries@, truncated))),
        Ok(None) => Ok(None),
        Err(e) => Err(e.deep_view()),
    }
}

/// The view of a reply about a key.
pub open spec fn replied_value(
    r: Result<(Height, Option<Vec<u8>>, Proof), QueryError>,
) -> Result<(Height, Option<Seq<u8>>, ProofView), QueryFault> {
    match r {
        Ok((height, value, evidence)) => Ok((height, value.deep_view(), evidence.deep_view())),
        Err(e) => Err(e.deep_view()),
    }
}

/// What [`answer`] needs from a node.
///
/// Deliberately narrow: a node's mempool, peers and keystore are unreachable from here.
/// Every method is fallible so a storage failure stays distinguishable from an absent
/// value.
///
/// The relations say which replies a node may give. A node goes on while it is being
/// asked, so the same question may get different replies.
pub trait ChainView {
    /// Whether the node may give a name for the network it serves.
    open spec fn may_name_network(&self, name: Seq<char>) -> bool {
        true
    }

    /// Whether the node may give a reply about its tip.
    open spec fn may_reply_tip(&self, r: Result<Height, QueryFault>) -> bool {
        true
    }

    /// Whether the node may give a reply about a signed header.
    open spec fn may_reply_header(
        &self,
        height: Height,
        r: Result<Option<SignedHeaderView>, QueryFault>,
    ) -> bool {
        true
    }

    /// Whether the node may give a reply about a key.
    open spec fn may_reply_value(
        &self,
        key: Seq<u8>,
        r: Result<(Height, Option<Seq<u8>>, ProofView), QueryFault>,
    ) -> bool {
        true
    }

    /// Whether the node may give a reply about a block.
    open spec fn may_reply_block(
        &self,
        height: Height,
        r: Result<Option<BlockView>, QueryFault>,
    ) -> bool {
        true
    }

    /// Whether the node may give a reply about a block's receipts.
    open spec fn may_reply_receipts(
        &self,
        height: Height,
        r: Result<Option<Seq<ReceiptView>>, QueryFault>,
    ) -> bool {
        true
    }

    /// Whether the node may give a reply about where a transaction sits.
    open spec fn may_reply_place(
        &self,
        id: Hash32,
        r: Result<Option<(Height, u32)>, QueryFault>,
    ) -> bool {
        true
    }

    /// Whether the node may give a reply about an account's history.
    open spec fn may_reply_history(
        &self,
        address: Address,
        from: Height,
        limit: usize,
        r: Result<Option<(Seq<HistoryEntry>, bool)>, QueryFault>,
    ) -> bool {
        true
    }

    /// The network this node serves.
    fn chain_id(&self) -> (c: &ChainId)
        ensures
            self.may_name_network(c@),
    ;

    /// The height of the tip.
    fn tip_height(&self) -> (r: Result<Height, QueryError>)
        ensures
            self.may_reply_tip(replied(r)),
    ;

    /// A signed header at `height`, if this node retains it.
    fn signed_header(&self, height: Height) -> (r: Result<Option<SignedHeader>, QueryError>)
        ensures
            self.may_reply_header(height, replied(r)),
    ;

    /// Read a key from current state and prove the result, saying which height that
    /// state is. All three must come from the same tree.
    fn prove(&self, key: &StoreKey) -> (r: Result<(Height, Option<Vec<u8>>, Proof), QueryError>)
        ensures
            self.may_reply_value(key@, replied_value(r)),
    ;

    /// A whole block, if this node retains it.
    fn block(&self, height: Height) -> (r: Result<Option<Block>, QueryError>)
        ensures
            self.may_reply_block(height, replied(r)),
    ;

    /// Execution receipts for a block, in execution order; `None` where this node does
    /// not keep them.
    fn receipts(&self, height: Height) -> (r: Result<Option<Vec<TxReceipt>>, QueryError>)
        ensures
            self.may_reply_receipts(height, replied(r)),
    ;

    /// Where a transaction sits, as `(height, index)`.
    fn locate(&self, id: &Hash32) -> (r: Result<Option<(Height, u32)>, QueryError>)
        ensures
            self.may_reply_place(*id, replied_place(r)),
    ;

    /// An account's transactions, oldest first, and whether the scan was truncated by
    /// `limit`; `None` where this node keeps no history index.
    fn history(&self, address: &Address, from: Height, limit: usize) -> (r: Result<
        Option<(Vec<HistoryEntry>, bool)>,
        QueryError,
    >)
        ensures
            self.may_reply_history(*address, from, limit, replied_history(r)),
    ;
}

/// Why a submitted transaction was not accepted.
#[derive(Debug, Clone, PartialEq, Eq)]
pub enum SubmitError {
    /// The node looked at it and said no.
    Rejected(String),
    /// This node does not accept transactions at all.
    NotAccepting,
    /// The node failed for its own reasons.
    Backend(String),
}

impl SubmitError {
    /// The sentence that describes this error.
    pub open spec fn text(self) -> Seq<char> {
        match self {
            SubmitError::Rejected(reason) => reason@,
            SubmitError::NotAccepting => "this node does not accept transactions"@,
            SubmitError::Backend(reason) => "backend error: "@ + reason@,
        }
    }

    /// The sentence that describes this error.
    pub fn to_string(&self) -> (s: String)
        ensures
            s@ == self.text(),
    {
        match self {
            SubmitError::Rejected(reason) => {
                let mut s = String::new();
                s.append(reason.as_str());
                assert(s@ =~= reason@);
                s
            },
            SubmitError::NotAccepting => String::from_str("this node does not accept transactions"),
            SubmitError::Backend(reason) => {
                let mut s = String::from_str("backend error: ");
                s.append(reason.as_str());
                s
            },
        }
    }
}

/// A node that accepts transactions. A separate trait from [`ChainView`], so that the
/// read path cannot reach a node's mempool.
pub trait Submit {
    /// Offer a transaction to the node. Returns the transaction's id.
    fn submit(&self, transaction: Transaction) -> (r: Result<Hash32, SubmitError>);
}

/// A node that refuses every submission.
#[derive(Debug, Clone, Copy)]
pub struct ReadOnly;

impl Default for ReadOnly {
    fn default() -> (r: Self)
        ensures
            r == ReadOnly,
    {
        ReadOnly
    }
}

impl Submit for ReadOnly {
    fn submit(&self, _transaction: Transaction) -> (r: Result<Hash32, SubmitError>)
        ensures
            r == Err::<Hash32, SubmitError>(SubmitError::NotAccepting),
    {
        Err(SubmitError::NotAccepting)
    }
}

// ---------------------------------------------------------------------------
// What comes of the replies
// ---------------------------------------------------------------------------

/// The answer to [`Query::Status`] for the height of the tip and a reply about it.
pub open spec fn status_of(
    network: Seq<char>,
    height: Height,
    header: Option<SignedHeaderView>,
) -> Result<ResponseView, QueryFault> {
    match header {
        Some(tip) => Ok(ResponseView::Status(StatusView { chain_id: network, tip })),
        None => Err(QueryFault::NoSuchHeight(height.0)),
    }
}

/// The answer to [`Query::Status`] for the height of the tip and a reply about it.
pub fn answer_status(chain_id: ChainId, height: Height, header: Option<SignedHeader>) -> (r: Result<
    Response,
    QueryError,
>)
    ensures
        replied(r) == status_of(chain_id@, height, header.deep_view()),
{
    match header {
        Some(tip) => Ok(Response::Status(Status { chain_id, tip })),
        None => Err(QueryError::NoSuchHeight(height.0)),
    }
}

/// The answer to [`Query::Header`] for a reply about the header.
pub open spec fn header_of(height: Height, header: Option<SignedHeaderView>) -> Result<
    ResponseView,
    QueryFault,
> {
    match header {
        Some(header) => Ok(ResponseView::Header(header)),
        None => Err(QueryFault::NoSuchHeight(height.0)),
    }
}

/// The answer to [`Query::Header`] for a reply about the header.
pub fn answer_header(height: Height, header: Option<SignedHeader>) -> (r: Result<
    Response,
    QueryError,
>)
    ensures
        replied(r) == header_of(height, header.deep_view()),
{
    match header {
        Some(header) => Ok(Response::Header(header)),
        None => Err(QueryError::NoSuchHeight(height.0)),
    }
}

/// The answer to [`Query::Block`] for a reply about the block.
pub open spec fn block_of(height: Height, block: Option<BlockView>) -> Result<
    ResponseView,
    QueryFault,
> {
    match block {
        Some(block) => Ok(ResponseView::Block(block)),
        None => Err(QueryFault::NoSuchHeight(height.0)),
    }
}

/// The answer to [`Query::Block`] for a reply about the block.
pub fn answer_block(height: Height, block: Option<Block>) -> (r: Result<Response, QueryError>)
    ensures
        replied(r) == block_of(height, block.deep_view()),
{
    match block {
        Some(block) => Ok(Response::Block(Box::new(block))),
        None => Err(QueryError::NoSuchHeight(height.0)),
    }
}

/// What is wrong with the block that an index names, if anything. The index is the
/// node's own, so a block that is missing or too short is a fault of the node's.
pub open spec fn block_fault(height: Height, index: u32, block: Option<BlockView>) -> Option<
    QueryFault,
> {
    match block {
        None => Some(
            QueryFault::Backend("index points at missing block "@ + text::decimal(height.0 as nat)),
        ),
        Some(block) => if index >= block.transactions.len() {
            Some(
                QueryFault::Backend(
                    "index points past the end of block "@ + text::decimal(height.0 as nat),
                ),
            )
        } else if block.transactions.len() > u32::MAX {
            Some(QueryFault::Backend("block is longer than a u32"@))
        } else {
            None
        },
    }
}

/// What is wrong with the receipts of a block of some transactions, if anything.
pub open spec fn receipts_fault(
    height: Height,
    transactions: nat,
    receipts: Option<Seq<ReceiptView>>,
) -> Option<QueryFault> {
    match receipts {
        None => Some(QueryFault::NotIndexed("execution receipts"@)),
        Some(receipts) => if receipts.len() != transactions {
            Some(
                QueryFault::Backend(
                    "block "@ + text::decimal(height.0 as nat) + " has "@ + text::decimal(
                        transactions,
                    ) + " transactions and "@ + text::decimal(receipts.len()) + " receipts"@,
                ),
            )
        } else {
            None
        },
    }
}

/// The identifiers of transactions.
pub open spec fn ids_of(transactions: Seq<TxView>) -> Seq<Hash32> {
    Seq::new(transactions.len(), |i: int| transactions[i].id())
}

/// A transaction and its receipt, proved at their place in the block.
pub open spec fn proved_in_block(
    height: Height,
    index: u32,
    block: BlockView,
    receipts: Seq<ReceiptView>,
) -> ProvedTxView {
    ProvedTxView {
        height,
        index,
        total: block.transactions.len() as u32,
        transaction: block.transactions[index as int],
        siblings: path_to(leaves_of(id_items(ids_of(block.transactions))), index as int),
        receipt: receipts[index as int],
        receipt_siblings: path_to(leaves_of(receipt_items(receipts)), index as int),
    }
}

/// Check the block that an index names for a transaction.
pub fn check_block(height: Height, index: u32, block: Option<Block>) -> (r: Result<
    Block,
    QueryError,
>)
    ensures
        match block_fault(height, index, block.deep_view()) {
            Some(f) => r matches Err(e) && e.deep_view() == f,
            None => r == Ok::<Block, QueryError>(block->0),
        },
{
    match block {
        None => {
            let mut reason = String::from_str("index points at missing block ");
            reason.append(height.to_string().as_str());
            Err(QueryError::Backend(reason))
        },
        Some(block) => {
            assert(block.transactions.deep_view().len() == block.transactions@.len());
            if index as usize >= block.transactions.len() {
                let mut reason = String::from_str("index points past the end of block ");
                reason.append(height.to_string().as_str());
                return Err(QueryError::Backend(reason));
            }
            if block.transactions.len() > u32::MAX as usize {
                return Err(QueryError::Backend(String::from_str("block is longer than a u32")));
            }
            Ok(block)
        },
    }
}

fn id_bytes(id: &Hash32) -> (out: Vec<u8>)
    ensures
        out@ == id.0@,
{
    let mut out: Vec<u8> = Vec::new();
    let mut i: usize = 0;
    while i < 32
        invariant
            i <= 32,
            out@ =~= id.0@.take(i as int),
        decreases 32 - i,
    {
        out.push(id.0[i]);
        i += 1;
    }
    assert(id.0@.take(32) =~= id.0@);
    out
}

/// The siblings on the way from an item to the root of the tree over all of them.
fn siblings_of(items: Vec<Vec<u8>>, index: usize, Ghost(want): Ghost<Seq<Seq<u8>>>) -> (s: Vec<
    Hash32,
>)
    requires
        index < items@.len(),
        want.len() == items@.len(),
        forall|i: int| 0 <= i < items@.len() ==> (#[trigger] items@[i])@ == want[i],
    ensures
        s@ == path_to(leaves_of(want), index as int),
{
    let tree = MerkleTree::from_items(items);
    assert(tree@ =~= leaves_of(want));
    match tree.prove(index) {
        Ok(inclusion) => inclusion.siblings,
        Err(_) => Vec::new(),
    }
}

/// The answer to [`Query::Transaction`] for the block that holds it, at a place, and a
/// reply about the block's receipts.
pub fn answer_transaction(
    height: Height,
    index: u32,
    block: Block,
    receipts: Option<Vec<TxReceipt>>,
) -> (r: Result<Response, QueryError>)
    requires
        index < block.deep_view().transactions.len() <= u32::MAX,
    ensures
        match receipts_fault(
            height,
            block.deep_view().transactions.len(),
            receipts.deep_view(),
        ) {
            Some(f) => replied(r) == Err::<ResponseView, QueryFault>(f),
            None => replied(r) == Ok::<ResponseView, QueryFault>(
                ResponseView::Transaction(
                    proved_in_block(height, index, block.deep_view(), receipts.deep_view()->0),
                ),
            ),
        },
{
    let ghost bv = block.deep_view();
    let ghost txs = bv.transactions;
    let mut transactions = block.transactions;
    let count: usize = transactions.len();
    let mut receipts = match receipts {
        Some(receipts) => receipts,
        None => {
            return Err(QueryError::NotIndexed("execution receipts"));
        },
    };
    let ghost rv = receipts.deep_view();
    if receipts.len() != count {
        let mut reason = String::from_str("block ");
        reason.append(height.to_string().as_str());
        reason.append(" has ");
        reason.append(text::decimal_text(count as u128).as_str());
        reason.append(" transactions and ");
        reason.append(text::decimal_text(receipts.len() as u128).as_str());
        reason.append(" receipts");
        return Err(QueryError::Backend(reason));
    }
    let at: usize = index as usize;
    let mut id_list: Vec<Vec<u8>> = Vec::new();
    let mut receipt_list: Vec<Vec<u8>> = Vec::new();
    let mut i: usize = 0;
    while i < count
        invariant
            i <= count,
            count == transactions@.len(),
            count == receipts@.len(),
            txs == transactions.deep_view(),
            rv == receipts.deep_view(),
            id_list@.len() == i,
            receipt_list@.len() == i,
            forall|k: int| 0 <= k < i ==> (#[trigger] id_list@[k])@ == id_items(ids_of(txs))[k],
            forall|k: int| 0 <= k < i ==> (#[trigger] receipt_list@[k])@ == receipt_items(rv)[k],
        decreases count - i,
    {
        let id = transactions[i].id();
        assert(txs[i as int] == transactions@[i as int].deep_view());
        id_list.push(id_bytes(&id));
        assert(rv[i as int] == receipts@[i as int].deep_view());
        receipt_list.push(receipts[i].to_bytes());
        i += 1;
    }
    let siblings = siblings_of(id_list, at, Ghost(id_items(ids_of(txs))));
    let receipt_siblings = siblings_of(receipt_list, at, Ghost(receipt_items(rv)));
    assert(txs[at as int] == transactions@[at as int].deep_view());
    assert(rv[at as int] == receipts@[at as int].deep_view());
    let transaction = transactions.remove(at);
    let receipt = receipts.remove(at);
    let proved = ProvedTransaction::new(
        height,
        index,
        count as u32,
        transaction,
        siblings,
        receipt,
        receipt_siblings,
    );
    Ok(Response::Transaction(Box::new(proved)))
}

/// The answer to [`Query::History`] for a reply about the account.
pub open spec fn history_of(address: Address, reply: Option<(Seq<HistoryEntry>, bool)>) -> Result<
    ResponseView,
    QueryFault,
> {
    match reply {
        Some((entries, truncated)) => Ok(
            ResponseView::History(HistoryView { address, entries, truncated }),
        ),
        None => Err(QueryFault::NotIndexed("a transaction history index"@)),
    }
}

/// The answer to [`Query::History`] for a reply about the account.
pub fn answer_history(address: Address, reply: Option<(Vec<HistoryEntry>, bool)>) -> (r: Result<
    Response,
    QueryError,
>)
    ensures
        replied(r) == history_of(address, replied_history(Ok(reply))->Ok_0),
{
    match reply {
        Some((entries, truncated)) => {
            assert(entries.deep_view() =~= entries@);
            Ok(Response::History(History::new(address, entries, truncated)))
        },
        None => Err(QueryError::NotIndexed("a transaction history index")),
    }
}

/// The answer to a state query for a reply about its key. The height comes back with
/// the proof, from the same read of the same tree.
pub open spec fn value_of(reply: (Height, Option<Seq<u8>>, ProofView)) -> ResponseView {
    ResponseView::Value(
        ProvedValueView { height: reply.0, value: reply.1, evidence: reply.2 },
    )
}

/// The most entries that a history query gets.
pub open spec fn history_limit(limit: u32) -> usize {
    if limit > MAX_HISTORY {
        MAX_HISTORY as usize
    } else {
        limit as usize
    }
}

// ---------------------------------------------------------------------------
// Answering
// ---------------------------------------------------------------------------

/// Whether replies about the tip and its header lead to a result.
pub open spec fn leads_to_status<V: ChainView + ?Sized>(
    view: &V,
    tip: Result<Height, QueryFault>,
    header: Result<Option<SignedHeaderView>, QueryFault>,
    r: Result<ResponseView, QueryFault>,
) -> bool {
    &&& view.may_reply_tip(tip)
    &&& match tip {
        Err(f) => r == Err::<ResponseView, QueryFault>(f),
        Ok(height) => {
            &&& view.may_reply_header(height, header)
            &&& match header {
                Err(f) => r == Err::<ResponseView, QueryFault>(f),
                Ok(header) => exists|name: Seq<char>| #[trigger]
                    view.may_name_network(name) && r == status_of(name, height, header),
            }
        },
    }
}

/// Whether a reply about a header leads to a result.
pub open spec fn leads_to_header<V: ChainView + ?Sized>(
    view: &V,
    height: Height,
    header: Result<Option<SignedHeaderView>, QueryFault>,
    r: Result<ResponseView, QueryFault>,
) -> bool {
    &&& view.may_reply_header(height, header)
    &&& match header {
        Err(f) => r == Err::<ResponseView, QueryFault>(f),
        Ok(header) => r == header_of(height, header),
    }
}

/// Whether a reply about a block leads to a result.
pub open spec fn leads_to_block<V: ChainView + ?Sized>(
    view: &V,
    height: Height,
    block: Result<Option<BlockView>, QueryFault>,
    r: Result<ResponseView, QueryFault>,
) -> bool {
    &&& view.may_reply_block(height, block)
    &&& match block {
        Err(f) => r == Err::<ResponseView, QueryFault>(f),
        Ok(block) => r == block_of(height, block),
    }
}

/// Whether replies about a transaction's place, its block, and the block's receipts
/// lead to a result. The receipts are asked for only where the block holds the
/// transaction.
pub open spec fn leads_to_transaction<V: ChainView + ?Sized>(
    view: &V,
    id: Hash32,
    place: Result<Option<(Height, u32)>, QueryFault>,
    block: Result<Option<BlockView>, QueryFault>,
    receipts: Result<Option<Seq<ReceiptView>>, QueryFault>,
    r: Result<ResponseView, QueryFault>,
) -> bool {
    &&& view.may_reply_place(id, place)
    &&& match place {
        Err(f) => r == Err::<ResponseView, QueryFault>(f),
        Ok(None) => r == Err::<ResponseView, QueryFault>(
            QueryFault::NoSuchTransaction(text::hex(id.0@)),
        ),
        Ok(Some((height, index))) => {
            &&& view.may_reply_block(height, block)
            &&& match block {
                Err(f) => r == Err::<ResponseView, QueryFault>(f),
                Ok(block) => match block_fault(height, index, block) {
                    Some(f) => r == Err::<ResponseView, QueryFault>(f),
                    None => {
                        &&& view.may_reply_receipts(height, receipts)
                        &&& match receipts {
                            Err(f) => r == Err::<ResponseView, QueryFault>(f),
                            Ok(receipts) => match receipts_fault(
                                height,
                                block->0.transactions.len(),
                                receipts,
                            ) {
                                Some(f) => r == Err::<ResponseView, QueryFault>(f),
                                None => r == Ok::<ResponseView, QueryFault>(
                                    ResponseView::Transaction(
                                        proved_in_block(height, index, block->0, receipts->0),
                                    ),
                                ),
                            },
                        }
                    },
                },
            }
        },
    }
}

/// Whether a reply about an account's history leads to a result.
pub open spec fn leads_to_history<V: ChainView + ?Sized>(
    view: &V,
    address: Address,
    from: Height,
    limit: u32,
    reply: Result<Option<(Seq<HistoryEntry>, bool)>, QueryFault>,
    r: Result<ResponseView, QueryFault>,
) -> bool {
    &&& view.may_reply_history(address, from, history_limit(limit), reply)
    &&& match reply {
        Err(f) => r == Err::<ResponseView, QueryFault>(f),
        Ok(reply) => r == history_of(address, reply),
    }
}

/// Whether a reply about a key leads to a result.
pub open spec fn leads_to_value<V: ChainView + ?Sized>(
    view: &V,
    key: Seq<u8>,
    reply: Result<(Height, Option<Seq<u8>>, ProofView), QueryFault>,
    r: Result<ResponseView, QueryFault>,
) -> bool {
    &&& view.may_reply_value(key, reply)
    &&& match reply {
        Err(f) => r == Err::<ResponseView, QueryFault>(f),
        Ok(reply) => r == Ok::<ResponseView, QueryFault>(value_of(reply)),
    }
}

/// Whether a result is what [`Query::Status`] gets from replies that a node may give.
pub open spec fn answers_status<V: ChainView + ?Sized>(
    view: &V,
    r: Result<ResponseView, QueryFault>,
) -> bool {
    exists|tip: Result<Height, QueryFault>, header: Result<Option<SignedHeaderView>, QueryFault>|
        leads_to_status(view, tip, header, r)
}

/// Whether a result is what [`Query::Transaction`] gets from replies that a node may
/// give.
pub open spec fn answers_transaction<V: ChainView + ?Sized>(
    view: &V,
    id: Hash32,
    r: Result<ResponseView, QueryFault>,
) -> bool {
    exists|
        place: Result<Option<(Height, u32)>, QueryFault>,
        block: Result<Option<BlockView>, QueryFault>,
        receipts: Result<Option<Seq<ReceiptView>>, QueryFault>,
    |
        leads_to_transaction(view, id, place, block, receipts, r)
}

/// Whether a result is what a state query gets from a reply that a node may give.
pub open spec fn answers_value<V: ChainView + ?Sized>(
    view: &V,
    key: Seq<u8>,
    r: Result<ResponseView, QueryFault>,
) -> bool {
    exists|reply: Result<(Height, Option<Seq<u8>>, ProofView), QueryFault>|
        leads_to_value(view, key, reply, r)
}

/// Whether a result is what [`Query::Header`] gets from a reply that a node may give.
pub open spec fn answers_header<V: ChainView + ?Sized>(
    view: &V,
    height: Height,
    r: Result<ResponseView, QueryFault>,
) -> bool {
    exists|header: Result<Option<SignedHeaderView>, QueryFault>|
        leads_to_header(view, height, header, r)
}

/// Whether a result is what [`Query::Block`] gets from a reply that a node may give.
pub open spec fn answers_block<V: ChainView + ?Sized>(
    view: &V,
    height: Height,
    r: Result<ResponseView, QueryFault>,
) -> bool {
    exists|block: Result<Option<BlockView>, QueryFault>| leads_to_block(view, height, block, r)
}

/// Whether a result is what [`Query::History`] gets from a reply that a node may give.
pub open spec fn answers_history<V: ChainView + ?Sized>(
    view: &V,
    address: Address,
    from: Height,
    limit: u32,
    r: Result<ResponseView, QueryFault>,
) -> bool {
    exists|reply: Result<Option<(Seq<HistoryEntry>, bool)>, QueryFault>|
        leads_to_history(view, address, from, limit, reply, r)
}

/// Whether a result is what a query gets from the replies that a node gave: the ones to
/// the questions that the query comes down to, and no others.
pub open spec fn answers<V: ChainView + ?Sized>(
    view: &V,
    query: QueryView,
    r: Result<ResponseView, QueryFault>,
) -> bool {
    match query {
        QueryView::Status => answers_status(view, r),
        QueryView::Header { height } => answers_header(view, height, r),
        QueryView::Block { height } => answers_block(view, height, r),
        QueryView::Transaction { id } => answers_transaction(view, id, r),
        QueryView::History { address, from, limit } => answers_history(
            view,
            address,
            from,
            limit,
            r,
        ),
        _ => answers_value(view, query.key()->0, r),
    }
}

fn serve_status<V: ChainView + ?Sized>(view: &V) -> (r: Result<Response, QueryError>)
    ensures
        answers_status(view, replied(r)),
{
    let ghost none: Result<Option<SignedHeaderView>, QueryFault> = Ok(None);
    match view.tip_height() {
        Err(e) => {
            assert(leads_to_status(
                view,
                Err(e.deep_view()),
                none,
                Err::<ResponseView, QueryFault>(e.deep_view()),
            ));
            Err(e)
        },
        Ok(height) => {
            let header = view.signed_header(height);
            let ghost seen = replied(header);
            let r = match header {
                Err(e) => Err(e),
                Ok(header) => answer_status(view.chain_id().clone(), height, header),
            };
            assert(leads_to_status(view, Ok(height), seen, replied(r)));
            r
        },
    }
}

fn serve_transaction<V: ChainView + ?Sized>(view: &V, id: &Hash32) -> (r: Result<
    Response,
    QueryError,
>)
    ensures
        answers_transaction(view, *id, replied(r)),
{
    let ghost no_block: Result<Option<BlockView>, QueryFault> = Ok(None);
    let ghost no_receipts: Result<Option<Seq<ReceiptView>>, QueryFault> = Ok(None);
    let place = view.locate(id);
    let ghost placed = replied_place(place);
    let (height, index): (Height, u32) = match place {
        Err(e) => {
            assert(leads_to_transaction(
                view,
                *id,
                placed,
                no_block,
                no_receipts,
                Err::<ResponseView, QueryFault>(e.deep_view()),
            ));
            return Err(e);
        },
        Ok(None) => {
            let e = QueryError::NoSuchTransaction(id.to_hex());
            assert(leads_to_transaction(
                view,
                *id,
                placed,
                no_block,
                no_receipts,
                Err::<ResponseView, QueryFault>(e.deep_view()),
            ));
            return Err(e);
        },
        Ok(Some(at)) => at,
    };
    let reply = view.block(height);
    let ghost held = replied(reply);
    let block = match reply {
        Err(e) => {
            assert(leads_to_transaction(
                view,
                *id,
                placed,
                held,
                no_receipts,
                Err::<ResponseView, QueryFault>(e.deep_view()),
            ));
            return Err(e);
        },
        Ok(block) => match check_block(height, index, block) {
            Err(e) => {
                assert(leads_to_transaction(
                    view,
                    *id,
                    placed,
                    held,
                    no_receipts,
                    Err::<ResponseView, QueryFault>(e.deep_view()),
                ));
                return Err(e);
            },
            Ok(block) => block,
        },
    };
    let receipts = view.receipts(height);
    let ghost kept = replied(receipts);
    let r = match receipts {
        Err(e) => Err(e),
        Ok(receipts) => answer_transaction(height, index, block, receipts),
    };
    assert(leads_to_transaction(view, *id, placed, held, kept, replied(r)));
    r
}

fn serve_value<V: ChainView + ?Sized>(view: &V, key: &StoreKey) -> (r: Result<Response, QueryError>)
    ensures
        answers_value(view, key@, replied(r)),
{
    let reply = view.prove(key);
    let ghost seen = replied_value(reply);
    let r = match reply {
        Err(e) => Err(e),
        Ok((height, value, evidence)) => Ok(
            Response::Value(ProvedValue::new(height, value, evidence)),
        ),
    };
    assert(leads_to_value(view, key@, seen, replied(r)));
    r
}

/// Answer one query.
///
/// Fails when the node cannot answer, never when the answer is simply "nothing is
/// stored there", which is a proved absence.
pub fn answer<V: ChainView + ?Sized>(view: &V, query: &Query) -> (r: Result<Response, QueryError>)
    ensures
        answers(view, query.deep_view(), replied(r)),
{
    match query {
        Query::Status => serve_status(view),
        Query::Header { height } => {
            let header = view.signed_header(*height);
            let ghost seen = replied(header);
            let r = match header {
                Err(e) => Err(e),
                Ok(header) => answer_header(*height, header),
            };
            assert(leads_to_header(view, *height, seen, replied(r)));
            r
        },
        Query::Block { height } => {
            let block = view.block(*height);
            let ghost seen = replied(block);
            let r = match block {
                Err(e) => Err(e),
                Ok(block) => answer_block(*height, block),
            };
            assert(leads_to_block(view, *height, seen, replied(r)));
            r
        },
        Query::Transaction { id } => serve_transaction(view, id),
        Query::History { address, from, limit } => {
            let most: usize = if *limit > MAX_HISTORY {
                MAX_HISTORY as usize
            } else {
                *limit as usize
            };
            let reply = view.history(address, *from, most);
            let ghost seen = replied_history(reply);
            let r = match reply {
                Err(e) => Err(e),
                Ok(reply) => answer_history(*address, reply),
            };
            assert(leads_to_history(view, *address, *from, *limit, seen, replied(r)));
            r
        },
        _ => match query.store_key() {
            Some(key) => serve_value(view, &key),
            None => Err(QueryError::Backend(String::from_str("query has no state key"))),
        },
    }
}

/// A transaction that a node serves from a block and its receipts passes the check
/// against the block's header, where the header commits to both and each receipt is
/// about its transaction.
pub proof fn law_served_transactions_verify(
    height: Height,
    index: u32,
    block: BlockView,
    receipts: Seq<ReceiptView>,
    header: BlockHeaderView,
)
    requires
        header.height == height,
        header.tx_root == root_over(leaves_of(id_items(ids_of(block.transactions)))),
        header.outcome_root == root_over(leaves_of(receipt_items(receipts))),
        block_fault(height, index, Some(block)) is None,
        receipts_fault(height, block.transactions.len(), Some(receipts)) is None,
        receipts[index as int].tx_id == block.transactions[index as int].id(),
    ensures
        proved_in_block(height, index, block, receipts).complaint(header) is None,
{
    law_honest_transactions_verify(
        header,
        proved_in_block(height, index, block, receipts),
        leaves_of(id_items(ids_of(block.transactions))),
        leaves_of(receipt_items(receipts)),
    );
}

} // verus!
