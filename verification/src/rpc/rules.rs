//! What is served and what is accepted, rule by rule.
//!
//! The laws here say what a stored record reads as, what a server makes of each reply of
//! its chain, and what a client accepts of an answer, in terms of the values themselves.

use crate::chain::{
    header_id, link_at, BlockHeader, BlockHeaderView, BlockView, Link, ReceiptView, TxReceipt,
};
use crate::chainstore::{record_of, signed_header_of, tip_after, tip_of, ReplayView, StoreFault};
use crate::consensus::{CommitView, ValidatorView};
use crate::crypto::address::Address;
use crate::crypto::hash::{digest, Domain, Hash32};
use crate::crypto::merkle::{climbed, leaf_of, leaves_of, path_to};
use crate::light::LightError;
use crate::primitives::amount::Amount;
use crate::primitives::codec::{parse_exact, Decode, Encode};
use crate::primitives::ids::Height;
use crate::primitives::text;
use crate::rpc::history::{CursorView, HistoryFault};
use crate::rpc::query::{
    id_items, receipt_items, HistoryEntry, HistoryView, ProvedTxView, ProvedValueView, QueryError,
    QueryFault, QueryView, ResponseView, SignedHeaderView, StatusView,
};
use crate::rpc::server::{
    answers, answers_history, answers_status, answers_transaction, answers_value, block_fault,
    block_of, header_of, history_limit, history_of, ids_of, leads_to_block, leads_to_header,
    leads_to_history, leads_to_status, leads_to_transaction, leads_to_value, proved_in_block,
    receipts_fault, replied, replied_history, replied_place, replied_value, status_of, value_of,
    ChainView,
};
use crate::state::membership::{Proof, ProofView};
use crate::state::store::{
    account_key, alias_key, alias_reverse_key, balance_key, contact_key, frozen_key, issuer_key,
    supply_key,
};
use vstd::prelude::*;

verus! {

// ---------------------------------------------------------------------------
// What is stored
// ---------------------------------------------------------------------------

/// What a stored record reads as: nothing where nothing is stored, and otherwise what
/// its bytes decode to as a whole. Bytes that do not decode are never taken for nothing.
pub proof fn law_what_a_record_reads_as<T: Decode>(what: Seq<char>, stored: Option<Seq<u8>>)
    ensures
        stored is None ==> record_of::<T>(what, stored) == Ok::<Option<T::V>, StoreFault>(None),
        stored matches Some(bytes) ==> (parse_exact::<T>(bytes) matches Ok(v) ==> record_of::<T>(
            what,
            stored,
        ) == Ok::<Option<T::V>, StoreFault>(Some(v))),
        stored matches Some(bytes) ==> (parse_exact::<T>(bytes) matches Err(f) ==> record_of::<T>(
            what,
            stored,
        ) == Err::<Option<T::V>, StoreFault>(StoreFault::Corrupt { what, reason: f.text() })),
{
}

/// The height of the tip: zero before anything is stored, and otherwise the height that
/// is stored. A block moves the tip to its own height unless that is below it; a tip
/// that cannot be read stops nobody from writing a new one.
pub proof fn law_where_the_tip_is(stored: Option<Seq<u8>>, height: Height)
    ensures
        stored is None ==> tip_of(stored) == Ok::<Height, StoreFault>(Height(0)),
        stored matches Some(bytes) ==> (parse_exact::<Height>(bytes) matches Ok(h) ==> tip_of(
            stored,
        ) == Ok::<Height, StoreFault>(h)),
        stored matches Some(bytes) ==> (parse_exact::<Height>(bytes) is Err ==> tip_of(
            stored,
        ) is Err),
        tip_of(stored) matches Ok(h) ==> tip_after(stored, height) == if height.0 < h.0 {
            None::<Height>
        } else {
            Some(height)
        },
        tip_of(stored) is Err ==> tip_after(stored, height) == Some(height),
{
}

/// A header is served signed: where there is no block there is none, and a block without
/// its commit is a fault of the store and not an absence.
pub proof fn law_headers_come_with_their_commit(
    height: Height,
    block: Option<BlockView>,
    commit: Option<CommitView>,
)
    ensures
        block is None ==> signed_header_of(height, block, commit) == Ok::<
            Option<SignedHeaderView>,
            QueryFault,
        >(None),
        block is Some && commit is None ==> signed_header_of(height, block, commit) == Err::<
            Option<SignedHeaderView>,
            QueryFault,
        >(QueryFault::NoCommit(height.0)),
        block is Some && commit is Some ==> signed_header_of(height, block, commit) == Ok::<
            Option<SignedHeaderView>,
            QueryFault,
        >(Some(SignedHeaderView { header: block->0.header, commit: commit->0 })),
{
}

/// A replay asks for the blocks one after another, from the first to the tip, and for no
/// more.
pub proof fn law_a_replay_takes_every_block(r: ReplayView)
    ensures
        r.next() is Some <==> r.done < r.last,
        r.next() matches Some(n) ==> n == r.done + 1,
{
}

// ---------------------------------------------------------------------------
// What is served
// ---------------------------------------------------------------------------

/// What a server makes of what its chain has: the record itself, with the height it was
/// asked for in the refusal where there is none.
pub proof fn law_what_is_served(
    network: Seq<char>,
    address: Address,
    height: Height,
    header: Option<SignedHeaderView>,
    block: Option<BlockView>,
    history: Option<(Seq<HistoryEntry>, bool)>,
    value: (Height, Option<Seq<u8>>, ProofView),
)
    ensures
        status_of(network, height, header) == if header is Some {
            Ok::<ResponseView, QueryFault>(
                ResponseView::Status(StatusView { chain_id: network, tip: header->0 }),
            )
        } else {
            Err(QueryFault::NoSuchHeight(height.0))
        },
        header_of(height, header) == if header is Some {
            Ok::<ResponseView, QueryFault>(ResponseView::Header(header->0))
        } else {
            Err(QueryFault::NoSuchHeight(height.0))
        },
        block_of(height, block) == if block is Some {
            Ok::<ResponseView, QueryFault>(ResponseView::Block(block->0))
        } else {
            Err(QueryFault::NoSuchHeight(height.0))
        },
        history_of(address, history) == if history is Some {
            Ok::<ResponseView, QueryFault>(
                ResponseView::History(
                    HistoryView { address, entries: (history->0).0, truncated: (history->0).1 },
                ),
            )
        } else {
            Err(QueryFault::NotIndexed("a transaction history index"@))
        },
        value_of(value) == ResponseView::Value(
            ProvedValueView { height: value.0, value: value.1, evidence: value.2 },
        ),
{
}

/// A history is asked for as long as the client wants it and never longer than two
/// hundred entries.
pub proof fn law_histories_are_bounded(limit: u32)
    ensures
        history_limit(limit) == if limit < 200 {
            limit as int
        } else {
            200
        },
{
}

/// When a transaction can be served from a block: the block is there, holds the place
/// and no more than can be counted, and every transaction of it has its receipt.
pub proof fn law_when_a_transaction_can_be_served(
    height: Height,
    index: u32,
    block: Option<BlockView>,
    transactions: nat,
    receipts: Option<Seq<ReceiptView>>,
)
    ensures
        block_fault(height, index, block) is None <==> block is Some && index
            < block->0.transactions.len() <= u32::MAX,
        receipts_fault(height, transactions, receipts) is None <==> receipts is Some
            && receipts->0.len() == transactions,
        receipts is None ==> receipts_fault(height, transactions, receipts) == Some(
            QueryFault::NotIndexed("execution receipts"@),
        ),
        block_fault(height, index, block) matches Some(f) ==> f is Backend,
        receipts is Some ==> (receipts_fault(height, transactions, receipts) matches Some(f) ==> f
            is Backend),
{
}

/// What is served of a transaction: the one at the place, its receipt, and the paths of
/// both to the roots over all identifiers and all receipts of the block.
pub proof fn law_what_is_served_of_a_transaction(
    height: Height,
    index: u32,
    block: BlockView,
    receipts: Seq<ReceiptView>,
)
    requires
        index < block.transactions.len() <= u32::MAX,
        receipts.len() == block.transactions.len(),
    ensures
        ({
            let p = proved_in_block(height, index, block, receipts);
            &&& p.height == height
            &&& p.index == index
            &&& p.total == block.transactions.len()
            &&& p.transaction == block.transactions[index as int]
            &&& p.receipt == receipts[index as int]
            &&& p.siblings == path_to(
                leaves_of(
                    Seq::new(
                        block.transactions.len(),
                        |i: int| block.transactions[i].id().0@,
                    ),
                ),
                index as int,
            )
            &&& p.receipt_siblings == path_to(
                leaves_of(Seq::new(receipts.len(), |i: int| TxReceipt::bytes_of(receipts[i]))),
                index as int,
            )
        }),
{
    assert(id_items(ids_of(block.transactions)) =~= Seq::new(
        block.transactions.len(),
        |i: int| block.transactions[i].id().0@,
    ));
    assert(receipt_items(receipts) =~= Seq::new(
        receipts.len(),
        |i: int| TxReceipt::bytes_of(receipts[i]),
    ));
}

/// A header or a block is answered from the chain's reply for the very height that was
/// asked for, whatever that reply is; a history for the very address and height, with
/// the limit held to two hundred.
pub proof fn law_answers_come_from_the_chain<V: ChainView + ?Sized>(
    view: &V,
    height: Height,
    address: Address,
    limit: u32,
    granted: usize,
    r: Result<ResponseView, QueryFault>,
)
    requires
        granted == if limit < 200 {
            limit as int
        } else {
            200
        },
    ensures
        answers(view, QueryView::Header { height }, r) <==> exists|
            reply: Result<Option<SignedHeaderView>, QueryFault>,
        |
            #[trigger] view.may_reply_header(height, reply) && match reply {
                Err(f) => r == Err::<ResponseView, QueryFault>(f),
                Ok(Some(h)) => r == Ok::<ResponseView, QueryFault>(ResponseView::Header(h)),
                Ok(None) => r == Err::<ResponseView, QueryFault>(
                    QueryFault::NoSuchHeight(height.0),
                ),
            },
        answers(view, QueryView::Block { height }, r) <==> exists|
            reply: Result<Option<BlockView>, QueryFault>,
        |
            #[trigger] view.may_reply_block(height, reply) && match reply {
                Err(f) => r == Err::<ResponseView, QueryFault>(f),
                Ok(Some(b)) => r == Ok::<ResponseView, QueryFault>(ResponseView::Block(b)),
                Ok(None) => r == Err::<ResponseView, QueryFault>(
                    QueryFault::NoSuchHeight(height.0),
                ),
            },
        answers(view, QueryView::History { address, from: height, limit }, r) <==> exists|
            reply: Result<Option<(Seq<HistoryEntry>, bool)>, QueryFault>,
        |
            #[trigger] view.may_reply_history(
                address,
                height,
                granted,
                reply,
            ) && match reply {
                Err(f) => r == Err::<ResponseView, QueryFault>(f),
                Ok(Some((entries, truncated))) => r == Ok::<ResponseView, QueryFault>(
                    ResponseView::History(HistoryView { address, entries, truncated }),
                ),
                Ok(None) => r == Err::<ResponseView, QueryFault>(
                    QueryFault::NotIndexed("a transaction history index"@),
                ),
            },
{
    if answers(view, QueryView::Header { height }, r) {
        let reply = choose|reply: Result<Option<SignedHeaderView>, QueryFault>|
            leads_to_header(view, height, reply, r);
        assert(view.may_reply_header(height, reply));
    }
    if exists|reply: Result<Option<SignedHeaderView>, QueryFault>|
        #[trigger] view.may_reply_header(height, reply) && match reply {
            Err(f) => r == Err::<ResponseView, QueryFault>(f),
            Ok(Some(h)) => r == Ok::<ResponseView, QueryFault>(ResponseView::Header(h)),
            Ok(None) => r == Err::<ResponseView, QueryFault>(QueryFault::NoSuchHeight(height.0)),
        } {
        let reply = choose|reply: Result<Option<SignedHeaderView>, QueryFault>|
            #[trigger] view.may_reply_header(height, reply) && match reply {
                Err(f) => r == Err::<ResponseView, QueryFault>(f),
                Ok(Some(h)) => r == Ok::<ResponseView, QueryFault>(ResponseView::Header(h)),
                Ok(None) => r == Err::<ResponseView, QueryFault>(
                    QueryFault::NoSuchHeight(height.0),
                ),
            };
        assert(leads_to_header(view, height, reply, r));
    }
    if answers(view, QueryView::Block { height }, r) {
        let reply = choose|reply: Result<Option<BlockView>, QueryFault>|
            leads_to_block(view, height, reply, r);
        assert(view.may_reply_block(height, reply));
    }
    if exists|reply: Result<Option<BlockView>, QueryFault>|
        #[trigger] view.may_reply_block(height, reply) && match reply {
            Err(f) => r == Err::<ResponseView, QueryFault>(f),
            Ok(Some(b)) => r == Ok::<ResponseView, QueryFault>(ResponseView::Block(b)),
            Ok(None) => r == Err::<ResponseView, QueryFault>(QueryFault::NoSuchHeight(height.0)),
        } {
        let reply = choose|reply: Result<Option<BlockView>, QueryFault>|
            #[trigger] view.may_reply_block(height, reply) && match reply {
                Err(f) => r == Err::<ResponseView, QueryFault>(f),
                Ok(Some(b)) => r == Ok::<ResponseView, QueryFault>(ResponseView::Block(b)),
                Ok(None) => r == Err::<ResponseView, QueryFault>(
                    QueryFault::NoSuchHeight(height.0),
                ),
            };
        assert(leads_to_block(view, height, reply, r));
    }
    assert(granted == history_limit(limit));
    lemma_histories_come_from_the_chain(view, height, address, limit, granted, r);
}

proof fn lemma_histories_come_from_the_chain<V: ChainView + ?Sized>(
    view: &V,
    height: Height,
    address: Address,
    limit: u32,
    granted: usize,
    r: Result<ResponseView, QueryFault>,
)
    requires
        granted == history_limit(limit),
    ensures
        answers(view, QueryView::History { address, from: height, limit }, r) <==> exists|
            reply: Result<Option<(Seq<HistoryEntry>, bool)>, QueryFault>,
        |
            #[trigger] view.may_reply_history(address, height, granted, reply)
                && match reply {
                Err(f) => r == Err::<ResponseView, QueryFault>(f),
                Ok(Some((entries, truncated))) => r == Ok::<ResponseView, QueryFault>(
                    ResponseView::History(HistoryView { address, entries, truncated }),
                ),
                Ok(None) => r == Err::<ResponseView, QueryFault>(
                    QueryFault::NotIndexed("a transaction history index"@),
                ),
            },
{
    if answers_history(view, address, height, limit, r) {
        let reply = choose|reply: Result<Option<(Seq<HistoryEntry>, bool)>, QueryFault>|
            leads_to_history(view, address, height, limit, reply, r);
        assert(view.may_reply_history(address, height, granted, reply));
    }
    if exists|reply: Result<Option<(Seq<HistoryEntry>, bool)>, QueryFault>|
        #[trigger] view.may_reply_history(address, height, granted, reply)
            && match reply {
            Err(f) => r == Err::<ResponseView, QueryFault>(f),
            Ok(Some((entries, truncated))) => r == Ok::<ResponseView, QueryFault>(
                ResponseView::History(HistoryView { address, entries, truncated }),
            ),
            Ok(None) => r == Err::<ResponseView, QueryFault>(
                QueryFault::NotIndexed("a transaction history index"@),
            ),
        } {
        let reply = choose|reply: Result<Option<(Seq<HistoryEntry>, bool)>, QueryFault>|
            #[trigger] view.may_reply_history(address, height, granted, reply)
                && match reply {
                Err(f) => r == Err::<ResponseView, QueryFault>(f),
                Ok(Some((entries, truncated))) => r == Ok::<ResponseView, QueryFault>(
                    ResponseView::History(HistoryView { address, entries, truncated }),
                ),
                Ok(None) => r == Err::<ResponseView, QueryFault>(
                    QueryFault::NotIndexed("a transaction history index"@),
                ),
            };
        assert(leads_to_history(view, address, height, limit, reply, r));
    }
}

/// A status is answered with the header at the very height that the chain gives as its
/// tip, under a name that the chain gives itself; a value with the chain's reply for the
/// very key of the query. A failing chain's fault is passed on as it is.
pub proof fn law_the_tip_and_values_come_from_the_chain<V: ChainView + ?Sized>(
    view: &V,
    query: QueryView,
    r: Result<ResponseView, QueryFault>,
)
    ensures
        answers(view, QueryView::Status, r) ==> {
            ||| exists|f: QueryFault| #[trigger]
                view.may_reply_tip(Err(f)) && r == Err::<ResponseView, QueryFault>(f)
            ||| exists|h: Height, header: Result<Option<SignedHeaderView>, QueryFault>|
                #[trigger] view.may_reply_tip(Ok(h)) && #[trigger] view.may_reply_header(h, header)
                    && match header {
                    Err(f) => r == Err::<ResponseView, QueryFault>(f),
                    Ok(None) => r == Err::<ResponseView, QueryFault>(
                        QueryFault::NoSuchHeight(h.0),
                    ),
                    Ok(Some(tip)) => r matches Ok(ResponseView::Status(s)) && s.tip == tip
                        && view.may_name_network(s.chain_id),
                }
        },
        query.key() is Some && answers(view, query, r) ==> exists|
            reply: Result<(Height, Option<Seq<u8>>, ProofView), QueryFault>,
        |
            #[trigger] view.may_reply_value(query.key()->0, reply) && match reply {
                Err(f) => r == Err::<ResponseView, QueryFault>(f),
                Ok((height, value, evidence)) => r == Ok::<ResponseView, QueryFault>(
                    ResponseView::Value(ProvedValueView { height, value, evidence }),
                ),
            },
{
    if answers_status(view, r) {
        let (tip, header) = choose|
            tip: Result<Height, QueryFault>,
            header: Result<Option<SignedHeaderView>, QueryFault>,
        |
            leads_to_status(view, tip, header, r);
        assert(view.may_reply_tip(tip));
        if let Ok(h) = tip {
            assert(view.may_reply_header(h, header));
            if let Ok(found) = header {
                let name = choose|name: Seq<char>| #[trigger]
                    view.may_name_network(name) && r == status_of(name, h, found);
                assert(view.may_name_network(name));
            }
        }
    }
    if query.key() is Some && answers(view, query, r) {
        let key = query.key()->0;
        assert(answers_value(view, key, r));
        let reply = choose|reply: Result<(Height, Option<Seq<u8>>, ProofView), QueryFault>|
            leads_to_value(view, key, reply, r);
        assert(view.may_reply_value(key, reply));
    }
}

/// A transaction is answered from the place that the chain's index gives for its
/// identifier, and from the block and the receipts at that very height: what is served
/// is the transaction at that place, with its receipt. Where the index has no place for
/// the identifier, the answer is that there is no such transaction.
pub proof fn law_transactions_come_from_their_place<V: ChainView + ?Sized>(
    view: &V,
    id: Hash32,
    r: Result<ResponseView, QueryFault>,
)
    requires
        answers(view, QueryView::Transaction { id }, r),
    ensures
        r matches Ok(answer) ==> exists|
            height: Height,
            index: u32,
            block: BlockView,
            receipts: Seq<ReceiptView>,
        |
            {
                &&& view.may_reply_place(id, Ok(Some((height, index))))
                &&& #[trigger] view.may_reply_block(height, Ok(Some(block)))
                &&& #[trigger] view.may_reply_receipts(height, Ok(Some(receipts)))
                &&& index < block.transactions.len() <= u32::MAX
                &&& receipts.len() == block.transactions.len()
                &&& answer == ResponseView::Transaction(
                    #[trigger] proved_in_block(height, index, block, receipts),
                )
            },
        (forall|place: Result<Option<(Height, u32)>, QueryFault>| #[trigger]
            view.may_reply_place(id, place) ==> place == Ok::<
                Option<(Height, u32)>,
                QueryFault,
            >(None)) ==> r == Err::<ResponseView, QueryFault>(
            QueryFault::NoSuchTransaction(text::hex(id.0@)),
        ),
{
    assert(answers_transaction(view, id, r));
    let (place, block, receipts) = choose|
        place: Result<Option<(Height, u32)>, QueryFault>,
        block: Result<Option<BlockView>, QueryFault>,
        receipts: Result<Option<Seq<ReceiptView>>, QueryFault>,
    |
        leads_to_transaction(view, id, place, block, receipts, r);
    assert(view.may_reply_place(id, place));
    if let Ok(answer) = r {
        let (height, index) = place->Ok_0->0;
        let b = block->Ok_0->0;
        let found = receipts->Ok_0->0;
        assert(view.may_reply_block(height, Ok(Some(b))));
        assert(view.may_reply_receipts(height, Ok(Some(found))));
        assert(answer == ResponseView::Transaction(proved_in_block(height, index, b, found)));
    }
}

/// The key under which a query's value is kept, for each query that asks for a value.
/// The others have none.
pub proof fn law_queries_ask_for_their_own_record(q: QueryView)
    ensures
        q matches QueryView::Balance { address, denom } ==> q.key() == Some(
            balance_key(address, denom),
        ),
        q matches QueryView::Account { address } ==> q.key() == Some(account_key(address)),
        q matches QueryView::Supply { denom } ==> q.key() == Some(supply_key(denom)),
        q matches QueryView::Issuer { denom } ==> q.key() == Some(issuer_key(denom)),
        q matches QueryView::Frozen { denom, address } ==> q.key() == Some(
            frozen_key(denom, address),
        ),
        q matches QueryView::ResolveName { name } ==> q.key() == Some(alias_key(name)),
        q matches QueryView::ResolveContact { commitment } ==> q.key() == Some(
            contact_key(commitment.0),
        ),
        q matches QueryView::PrimaryAlias { address } ==> q.key() == Some(
            alias_reverse_key(address),
        ),
        q is Status || q is Header || q is Block || q is Transaction || q is History ==> q.key()
            is None,
{
}

// ---------------------------------------------------------------------------
// What is accepted
// ---------------------------------------------------------------------------

/// When a signed header is accepted: its commit is for this very header, at its height,
/// and holds for the validators.
pub proof fn law_when_a_header_is_accepted(
    s: SignedHeaderView,
    chain_id: Seq<char>,
    validators: Seq<ValidatorView>,
)
    ensures
        header_id(s.header) == digest(Domain::BlockHeader, BlockHeader::bytes_of(s.header)),
        s.complaint(chain_id, validators) == if s.commit.block_id != digest(
            Domain::BlockHeader,
            BlockHeader::bytes_of(s.header),
        ) || s.commit.height != s.header.height {
            Some(LightError::HeaderMismatch)
        } else if s.commit.fault(chain_id, validators) is Some {
            Some(LightError::Commit(s.commit.fault(chain_id, validators)->0))
        } else {
            None
        },
{
}

/// When a value is accepted: its proof shows it, or its absence, under the trusted
/// header's state root and for the key that was asked for. An absent amount is zero, and
/// one that does not decode is refused.
pub proof fn law_when_a_value_is_accepted(
    v: ProvedValueView,
    header: BlockHeaderView,
    key: Seq<u8>,
)
    ensures
        v.checked(header, key) == if v.evidence.shows(header.app_hash, key, v.value) {
            Ok::<Option<Seq<u8>>, LightError>(v.value)
        } else {
            Err(LightError::BadProof)
        },
        v.checked_amount(header, key) == if !v.evidence.shows(header.app_hash, key, v.value) {
            Err::<Amount, LightError>(LightError::BadProof)
        } else if v.value is None {
            Ok(Amount(0))
        } else if parse_exact::<Amount>(v.value->0) is Err {
            Err(LightError::MalformedValue)
        } else {
            Ok(parse_exact::<Amount>(v.value->0)->Ok_0)
        },
{
}

/// When a transaction is accepted: the header is of the block it is said to be in, its
/// identifier and its receipt are both at its place under the header's roots, and the
/// receipt is of this transaction.
pub proof fn law_when_a_transaction_is_accepted(p: ProvedTxView, header: BlockHeaderView)
    ensures
        p.complaint(header) == if header.height != p.height {
            Some(LightError::HeaderMismatch)
        } else if {
            &&& p.index < p.total
            &&& climbed(
                leaf_of(p.transaction.id().0@),
                p.index as int,
                p.total as nat,
                p.siblings,
            ) == Some(header.tx_root)
            &&& climbed(
                leaf_of(TxReceipt::bytes_of(p.receipt)),
                p.index as int,
                p.total as nat,
                p.receipt_siblings,
            ) == Some(header.outcome_root)
            &&& p.receipt.tx_id == p.transaction.id()
        } {
            None
        } else {
            Some(LightError::BadProof)
        },
{
}

proof fn lemma_first_link(links: Seq<Link>, address: Address)
    ensures
        link_at(links, address) <= links.len(),
        link_at(links, address) < links.len() ==> links[link_at(links, address) as int].address
            == address,
        forall|i: int| 0 <= i < link_at(links, address) ==> (#[trigger] links[i]).address
            != address,
    decreases links.len(),
{
    if links.len() > 0 && links[0].address != address {
        let rest = links.drop_first();
        lemma_first_link(rest, address);
        assert forall|i: int| 0 <= i < link_at(links, address) implies (
        #[trigger] links[i]).address != address by {
            if i > 0 {
                assert(rest[i - 1] == links[i]);
            }
        }
    }
}

/// What a receipt says came before for an account: what its first link for that account
/// says, and nothing at all where it has no link for it.
pub proof fn law_a_receipt_links_each_account(r: ReceiptView, address: Address)
    ensures
        r.predecessor(address) is None <==> forall|i: int|
            0 <= i < r.links.len() ==> (#[trigger] r.links[i]).address != address,
        forall|i: int|
            0 <= i < r.links.len() && (#[trigger] r.links[i]).address == address && (forall|j: int|
                0 <= j < i ==> (#[trigger] r.links[j]).address != address) ==> r.predecessor(
                address,
            ) == Some(r.links[i].previous),
{
    lemma_first_link(r.links, address);
    let at = link_at(r.links, address) as int;
    assert forall|i: int|
        0 <= i < r.links.len() && (#[trigger] r.links[i]).address == address && (forall|j: int|
            0 <= j < i ==> (#[trigger] r.links[j]).address != address) implies r.predecessor(
        address,
    ) == Some(r.links[i].previous) by {
        if at < i {
            assert(r.links[at].address != address);
        }
    }
    if at < r.links.len() {
        assert(r.links[at].address == address);
    }
}

/// One step back through an account's history: the walk is not over, the header is of
/// the block that the pointer names, the answer is accepted under it and is the
/// transaction that the pointer names, and its receipt has a link for the account. The
/// walk then points where that link does and has seen one transaction more. The first of
/// these that fails, in that order, is the error.
pub proof fn law_how_a_walk_goes(c: CursorView, p: ProvedTxView, header: BlockHeaderView)
    ensures
        ({
            let at = c.next;
            let previous = p.receipt.predecessor(c.address);
            c.walked(p, header) == if at is None {
                Err::<CursorView, HistoryFault>(HistoryFault::Finished)
            } else if header.height != at->0.height {
                Err(
                    HistoryFault::WrongHeight {
                        expected: at->0.height.0,
                        got: header.height.0,
                    },
                )
            } else if p.complaint(header) is Some {
                Err(HistoryFault::Verification(p.complaint(header)->0))
            } else if p.transaction.id() != at->0.tx_id {
                Err(
                    HistoryFault::WrongTransaction {
                        expected: text::hex(at->0.tx_id.0@),
                        got: text::hex(p.transaction.id().0@),
                    },
                )
            } else if previous is None {
                Err(HistoryFault::BrokenChain)
            } else {
                Ok(
                    CursorView {
                        address: c.address,
                        next: previous->0,
                        seen: (if c.seen < usize::MAX {
                            c.seen + 1
                        } else {
                            c.seen as int
                        }) as usize,
                    },
                )
            }
        }),
{
}

/// A reply is passed on as it is, what was found and what went wrong alike.
pub proof fn law_replies_are_passed_on<T: DeepView>(
    found: T,
    e: QueryError,
    place: Option<(Height, u32)>,
    entries: Vec<HistoryEntry>,
    truncated: bool,
    value: Option<Vec<u8>>,
    height: Height,
    evidence: Proof,
)
    ensures
        replied(Ok::<T, QueryError>(found)) == Ok::<T::V, QueryFault>(found.deep_view()),
        replied(Err::<T, QueryError>(e)) == Err::<T::V, QueryFault>(e.deep_view()),
        replied_place(Ok(place)) == Ok::<Option<(Height, u32)>, QueryFault>(place),
        replied_place(Err(e)) == Err::<Option<(Height, u32)>, QueryFault>(e.deep_view()),
        replied_history(Ok(None)) == Ok::<Option<(Seq<HistoryEntry>, bool)>, QueryFault>(None),
        replied_history(Ok(Some((entries, truncated)))) == Ok::<
            Option<(Seq<HistoryEntry>, bool)>,
            QueryFault,
        >(Some((entries@, truncated))),
        replied_history(Err(e)) == Err::<Option<(Seq<HistoryEntry>, bool)>, QueryFault>(
            e.deep_view(),
        ),
        replied_value(Ok((height, value, evidence))) == Ok::<
            (Height, Option<Seq<u8>>, ProofView),
            QueryFault,
        >((height, value.deep_view(), evidence.deep_view())),
        replied_value(Err(e)) == Err::<(Height, Option<Seq<u8>>, ProofView), QueryFault>(
            e.deep_view(),
        ),
{
}

} // verus!
