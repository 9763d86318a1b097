//! Walking an account's history backwards, so that omission is detectable.
//!
//! An account's last-transaction pointer is in state, so it is proved against a header
//! the wallet verified. It names one transaction; that transaction's receipt is proved
//! against the header's `outcome_root` and names the account's previous pointer, and so
//! on backwards. Every link is committed: a hidden payment becomes a refusal to serve
//! rather than a silent gap.

use crate::chain::{BlockHeader, BlockHeaderView, ReceiptView, TxReceipt};
use crate::crypto::address::Address;
use crate::crypto::hash::{clash_free, Hash32, Preimage};
use crate::crypto::merkle::{leaves_of, root_over};
use crate::light::LightError;
use crate::primitives::codec::Canonical;
use crate::primitives::ids::Height;
use crate::primitives::text;
use crate::rpc::query::{
    hashed_for_answer, id_items, law_accepted_answers_are_in_the_block, receipt_items,
    ProvedTransaction, ProvedTxView,
};
use crate::types::account::{Account, TxPointer};
use crate::types::tx::Transaction;
use vstd::prelude::*;

verus! {

/// Why a history walk stopped.
#[derive(Debug, Clone, PartialEq, Eq)]
pub enum HistoryError {
    /// The walk is already complete; there is nothing further back.
    Finished,
    /// The server answered with a transaction other than the one asked for.
    WrongTransaction {
        /// What the committed pointer named.
        expected: String,
        /// What arrived.
        got: String,
    },
    /// The transaction was served for the wrong height.
    WrongHeight {
        /// Height the pointer named.
        expected: u64,
        /// Height the answer was for.
        got: u64,
    },
    /// The receipt does not mention this account: the history chain is broken.
    BrokenChain,
    /// A proof did not verify.
    Verification(LightError),
}

/// The mathematical view of a [`HistoryError`].
pub enum HistoryFault {
    Finished,
    WrongTransaction { expected: Seq<char>, got: Seq<char> },
    WrongHeight { expected: u64, got: u64 },
    BrokenChain,
    Verification(LightError),
}

impl DeepView for HistoryError {
    type V = HistoryFault;

    open spec fn deep_view(&self) -> HistoryFault {
        match *self {
            HistoryError::Finished => HistoryFault::Finished,
            HistoryError::WrongTransaction { expected, got } =>
                HistoryFault::WrongTransaction {
                    expected: expected.deep_view(),
                    got: got.deep_view(),
                },
            HistoryError::WrongHeight { expected, got } =>
                HistoryFault::WrongHeight { expected: expected.deep_view(), got: got.deep_view() },
            HistoryError::BrokenChain => HistoryFault::BrokenChain,
            HistoryError::Verification(e) => HistoryFault::Verification(e),
        }
    }
}

impl HistoryFault {
    /// The sentence that describes this error.
    pub open spec fn text(self) -> Seq<char> {
        match self {
            HistoryFault::Finished => "the history walk is already at its end"@,
            HistoryFault::WrongTransaction { expected, got } =>
                "expected transaction "@ + expected + ", server returned "@ + got,
            HistoryFault::WrongHeight { expected, got } =>
                "expected a transaction in block "@ + text::decimal(expected as nat)
                    + ", got block "@ + text::decimal(got as nat),
            HistoryFault::BrokenChain =>
                "receipt does not name this account: the history chain is broken"@,
            HistoryFault::Verification(e) => e.text(),
        }
    }
}

impl HistoryError {
    /// The sentence that describes this error.
    pub fn to_string(&self) -> (s: String)
        ensures
            s@ == self.deep_view().text(),
    {
        match self {
            HistoryError::Finished => String::from_str("the history walk is already at its end"),
            HistoryError::WrongTransaction { expected, got } => {
                let mut s = String::from_str("expected transaction ");
                s.append(expected.as_str());
                s.append(", server returned ");
                s.append(got.as_str());
                s
            },
            HistoryError::WrongHeight { expected, got } => {
                let mut s = String::from_str("expected a transaction in block ");
                s.append(text::decimal_text(*expected as u128).as_str());
                s.append(", got block ");
                s.append(text::decimal_text(*got as u128).as_str());
                s
            },
            HistoryError::BrokenChain => String::from_str(
                "receipt does not name this account: the history chain is broken",
            ),
            HistoryError::Verification(e) => e.to_string(),
        }
    }
}

/// The mathematical view of a [`HistoryCursor`].
pub struct CursorView {
    pub address: Address,
    pub next: Option<TxPointer>,
    pub seen: usize,
}

/// A cursor walking one account's history from newest to oldest.
///
/// Nothing here fetches. The caller obtains each [`ProvedTransaction`] however it likes
/// and hands it to [`step`](Self::step) with the header it belongs to. The cursor
/// refuses anything that does not continue the committed chain.
#[derive(Debug, Clone)]
pub struct HistoryCursor {
    address: Address,
    next: Option<TxPointer>,
    seen: usize,
}

impl View for HistoryCursor {
    type V = CursorView;

    closed spec fn view(&self) -> CursorView {
        CursorView { address: self.address, next: self.next, seen: self.seen }
    }
}

impl CursorView {
    /// Where one answer takes the cursor, or why it is refused.
    pub open spec fn walked(self, p: ProvedTxView, header: BlockHeaderView) -> Result<
        CursorView,
        HistoryFault,
    > {
        match self.next {
            None => Err(HistoryFault::Finished),
            Some(pointer) => if header.height != pointer.height {
                Err(
                    HistoryFault::WrongHeight {
                        expected: pointer.height.0,
                        got: header.height.0,
                    },
                )
            } else {
                match p.complaint(header) {
                    Some(e) => Err(HistoryFault::Verification(e)),
                    None => if p.transaction.id() != pointer.tx_id {
                        Err(
                            HistoryFault::WrongTransaction {
                                expected: text::hex(pointer.tx_id.0@),
                                got: text::hex(p.transaction.id().0@),
                            },
                        )
                    } else {
                        match p.receipt.predecessor(self.address) {
                            None => Err(HistoryFault::BrokenChain),
                            Some(previous) => Ok(
                                CursorView {
                                    address: self.address,
                                    next: previous,
                                    seen: if self.seen == usize::MAX {
                                        usize::MAX
                                    } else {
                                        (self.seen + 1) as usize
                                    },
                                },
                            ),
                        }
                    },
                }
            },
        }
    }
}

impl HistoryCursor {
    /// Start from a proved account record. The whole chain hangs off this first
    /// pointer.
    pub fn new(address: Address, account: &Account) -> (c: Self)
        ensures
            c@ == (CursorView { address, next: account.deep_view().last_txn, seen: 0 }),
    {
        HistoryCursor { address, next: account.last_txn, seen: 0 }
    }

    /// Start from an account that does not exist yet: a proved absence is a complete
    /// history of length zero.
    pub fn empty(address: Address) -> (c: Self)
        ensures
            c@ == (CursorView { address, next: None, seen: 0 }),
    {
        HistoryCursor { address, next: None, seen: 0 }
    }

    /// The transaction to fetch next, or `None` when the walk is complete.
    pub fn next_pointer(&self) -> (p: Option<TxPointer>)
        ensures
            p == self@.next,
    {
        self.next
    }

    /// Whether the whole history has been walked.
    pub fn complete(&self) -> (b: bool)
        ensures
            b == (self@.next is None),
    {
        self.next.is_none()
    }

    /// How many transactions have been verified so far.
    pub fn seen(&self) -> (n: usize)
        ensures
            n == self@.seen,
    {
        self.seen
    }

    /// Verify the next transaction in the chain and step backwards.
    ///
    /// `header` must be one the caller has already verified, for the height the cursor
    /// is pointing at.
    pub fn step<'a>(&mut self, proved: &'a ProvedTransaction, header: &BlockHeader) -> (r: Result<
        &'a Transaction,
        HistoryError,
    >)
        ensures
            match old(self)@.walked(proved.deep_view(), header.deep_view()) {
                Ok(c) => {
                    &&& final(self)@ == c
                    &&& r matches Ok(t) && t.deep_view() == proved.deep_view().transaction
                },
                Err(f) => {
                    &&& final(self)@ == old(self)@
                    &&& r matches Err(e) && e.deep_view() == f
                },
            },
    {
        let pointer = match self.next {
            Some(pointer) => pointer,
            None => {
                return Err(HistoryError::Finished);
            },
        };
        if header.height.0 != pointer.height.0 {
            return Err(
                HistoryError::WrongHeight { expected: pointer.height.0, got: header.height.0 },
            );
        }
        let effects = match proved.verify(header) {
            Ok(effects) => effects,
            Err(e) => {
                return Err(HistoryError::Verification(e));
            },
        };
        let id = effects.transaction.id();
        if !id.same(&pointer.tx_id) {
            return Err(
                HistoryError::WrongTransaction {
                    expected: pointer.tx_id.to_hex(),
                    got: id.to_hex(),
                },
            );
        }
        let previous = match effects.receipt.previous_for(&self.address) {
            Ok(previous) => previous,
            Err(()) => {
                return Err(HistoryError::BrokenChain);
            },
        };
        self.next = previous;
        self.seen = self.seen.saturating_add(1);
        Ok(effects.transaction)
    }
}

/// A server cannot divert the walk: whatever answers two servers give for the same
/// block, if both are accepted, the cursor goes to the same place. The block's receipts
/// are about different transactions, as they are where each transaction has one. Hashes
/// that clash are left out.
pub proof fn law_the_walk_cannot_be_diverted(
    c: CursorView,
    header: BlockHeaderView,
    p: ProvedTxView,
    q: ProvedTxView,
    ids: Seq<Hash32>,
    receipts: Seq<ReceiptView>,
    hashed: Set<Preimage>,
)
    requires
        c.walked(p, header) is Ok,
        c.walked(q, header) is Ok,
        header.tx_root == root_over(leaves_of(id_items(ids))),
        header.outcome_root == root_over(leaves_of(receipt_items(receipts))),
        clash_free(hashed),
        hashed_for_answer(hashed, p, ids, receipts),
        hashed_for_answer(hashed, q, ids, receipts),
        TxReceipt::valid(p.receipt),
        TxReceipt::valid(q.receipt),
        forall|i: int| 0 <= i < receipts.len() ==> TxReceipt::valid(#[trigger] receipts[i]),
        forall|i: int, j: int|
            0 <= i < j < receipts.len() ==> (#[trigger] receipts[i]).tx_id != (
            #[trigger] receipts[j]).tx_id,
    ensures
        c.walked(p, header) == c.walked(q, header),
        p.transaction.id() == q.transaction.id(),
        p.receipt == q.receipt,
{
    law_accepted_answers_are_in_the_block(header, p, ids, receipts, hashed);
    law_accepted_answers_are_in_the_block(header, q, ids, receipts, hashed);
    let i = choose|i: int| 0 <= i < receipts.len() && receipts[i] == p.receipt;
    let j = choose|j: int| 0 <= j < receipts.len() && receipts[j] == q.receipt;
    if i < j {
        assert(receipts[i].tx_id != receipts[j].tx_id);
    } else if j < i {
        assert(receipts[j].tx_id != receipts[i].tx_id);
    }
}

/// A walk is over only where the chain is: a step is accepted until a receipt names no
/// predecessor, and none is accepted after that.
pub proof fn law_a_complete_walk_has_reached_the_end(
    c: CursorView,
    p: ProvedTxView,
    header: BlockHeaderView,
)
    ensures
        c.next is None ==> c.walked(p, header) == Err::<CursorView, HistoryFault>(
            HistoryFault::Finished,
        ),
        c.walked(p, header) matches Ok(d) ==> (d.next is None <==> p.receipt.predecessor(c.address)
            == Some(None::<TxPointer>)) && d.address == c.address,
{
}

/// One step that a walk was offered: an answer, and the verified header it is held to.
pub struct StepView {
    pub answer: ProvedTxView,
    pub header: BlockHeaderView,
}

/// Where a list of steps takes a cursor, or why the first bad one is refused.
pub open spec fn walk(c: CursorView, steps: Seq<StepView>) -> Result<CursorView, HistoryFault>
    decreases steps.len(),
{
    if steps.len() == 0 {
        Ok(c)
    } else {
        match c.walked(steps[0].answer, steps[0].header) {
            Ok(d) => walk(d, steps.drop_first()),
            Err(f) => Err(f),
        }
    }
}

/// The transactions that steps show, newest first.
pub open spec fn shown(steps: Seq<StepView>) -> Seq<Hash32> {
    Seq::new(steps.len(), |i: int| steps[i].answer.transaction.id())
}

/// What stands behind a header: the transactions and the receipts that it commits to.
pub struct SealedBlock {
    pub header: BlockHeaderView,
    pub ids: Seq<Hash32>,
    pub receipts: Seq<ReceiptView>,
}

impl SealedBlock {
    /// Whether the header commits to the rest, and the receipts are about different
    /// transactions.
    pub open spec fn sealed(self) -> bool {
        &&& self.header.tx_root == root_over(leaves_of(id_items(self.ids)))
        &&& self.header.outcome_root == root_over(leaves_of(receipt_items(self.receipts)))
        &&& forall|i: int|
            0 <= i < self.receipts.len() ==> TxReceipt::valid(#[trigger] self.receipts[i])
        &&& forall|i: int, j: int|
            0 <= i < j < self.receipts.len() ==> (#[trigger] self.receipts[i]).tx_id != (
            #[trigger] self.receipts[j]).tx_id
    }
}

/// Whether every step is held to the header of a chain at its height, everything that
/// checking the answers hashes being among the given preimages.
pub open spec fn held_to_chain(
    steps: Seq<StepView>,
    chain: spec_fn(Height) -> SealedBlock,
    hashed: Set<Preimage>,
) -> bool {
    forall|i: int|
        0 <= i < steps.len() ==> held_to_block(
            #[trigger] steps[i],
            chain(steps[i].header.height),
            hashed,
        )
}

/// Whether a step is held to the header of a block.
pub open spec fn held_to_block(s: StepView, b: SealedBlock, hashed: Set<Preimage>) -> bool {
    &&& b.sealed()
    &&& s.header == b.header
    &&& hashed_for_answer(hashed, s.answer, b.ids, b.receipts)
    &&& TxReceipt::valid(s.answer.receipt)
}

/// An account has one history: whatever two servers answer along the headers of one
/// chain, two walks that start from the same pointer and both come to an end have shown
/// the same transactions, one for one, and end alike. Nothing can be left out, put in or
/// put in another order. Hashes that clash are left out.
pub proof fn law_complete_walks_show_one_history(
    c: CursorView,
    a: Seq<StepView>,
    b: Seq<StepView>,
    chain: spec_fn(Height) -> SealedBlock,
    hashed: Set<Preimage>,
)
    requires
        walk(c, a) matches Ok(d) && d.next is None,
        walk(c, b) matches Ok(d) && d.next is None,
        held_to_chain(a, chain, hashed),
        held_to_chain(b, chain, hashed),
        clash_free(hashed),
    ensures
        a.len() == b.len(),
        shown(a) == shown(b),
        walk(c, a) == walk(c, b),
    decreases a.len(),
{
    if c.next is Some {
        let (p, q) = (a[0], b[0]);
        let block = chain(p.header.height);
        assert(held_to_block(p, block, hashed));
        assert(held_to_block(q, chain(q.header.height), hashed));
        assert(p.header.height == q.header.height);
        law_the_walk_cannot_be_diverted(
            c,
            block.header,
            p.answer,
            q.answer,
            block.ids,
            block.receipts,
            hashed,
        );
        let d = c.walked(p.answer, p.header)->Ok_0;
        let (more_a, more_b) = (a.drop_first(), b.drop_first());
        assert forall|i: int| 0 <= i < more_a.len() implies held_to_block(
            #[trigger] more_a[i],
            chain(more_a[i].header.height),
            hashed,
        ) by {
            assert(more_a[i] == a[i + 1]);
        }
        assert forall|i: int| 0 <= i < more_b.len() implies held_to_block(
            #[trigger] more_b[i],
            chain(more_b[i].header.height),
            hashed,
        ) by {
            assert(more_b[i] == b[i + 1]);
        }
        law_complete_walks_show_one_history(d, more_a, more_b, chain, hashed);
        assert forall|i: int| 0 <= i < a.len() implies shown(a)[i] == shown(b)[i] by {
            if i > 0 {
                assert(shown(more_a)[i - 1] == shown(more_b)[i - 1]);
                assert(more_a[i - 1] == a[i] && more_b[i - 1] == b[i]);
            }
        }
    }
    assert(shown(a) =~= shown(b));
}

} // verus!
