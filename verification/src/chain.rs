//! Blocks, their headers, and what executing them leaves behind.
//!
//! A header commits to the transactions of its block (`tx_root`), to one receipt per
//! transaction in execution order (`outcome_root`), and to the state after them
//! (`app_hash`). Its identifier commits to all of the header.

use crate::crypto::address::Address;
use crate::crypto::hash::{digest, hash, Domain, Hash32};
use crate::primitives::codec::{Canonical, CodecError, Decode, Encode, Parsed, Reader};
use crate::primitives::ids::{ChainId, Height, Timestamp};
use crate::primitives::wire;
use crate::types::account::TxPointer;
use crate::types::tx::{Transaction, TxView};
use vstd::prelude::*;

verus! {

/// The fields of a [`BlockHeader`], as they follow each other on the wire.
type HeaderFields = (
    ChainId,
    (Height, (Timestamp, (Hash32, (Hash32, (Hash32, (Hash32, Hash32)))))),
);

/// What a commit finalises.
#[derive(Debug, Clone, PartialEq, Eq)]
pub struct BlockHeader {
    /// The network.
    pub chain_id: ChainId,
    /// Height of the block.
    pub height: Height,
    /// When the block was proposed.
    pub time: Timestamp,
    /// Identifier of the block before.
    pub parent: Hash32,
    /// Merkle root over the identifiers of the transactions.
    pub tx_root: Hash32,
    /// Merkle root over the receipts, in execution order.
    pub outcome_root: Hash32,
    /// State root after the block.
    pub app_hash: Hash32,
    /// Hash of the validator set that signs the block.
    pub validators: Hash32,
}

/// The mathematical view of a [`BlockHeader`].
pub struct BlockHeaderView {
    pub chain_id: Seq<char>,
    pub height: Height,
    pub time: Timestamp,
    pub parent: Hash32,
    pub tx_root: Hash32,
    pub outcome_root: Hash32,
    pub app_hash: Hash32,
    pub validators: Hash32,
}

impl DeepView for BlockHeader {
    type V = BlockHeaderView;

    open spec fn deep_view(&self) -> BlockHeaderView {
        BlockHeaderView {
            chain_id: self.chain_id.deep_view(),
            height: self.height.deep_view(),
            time: self.time.deep_view(),
            parent: self.parent.deep_view(),
            tx_root: self.tx_root.deep_view(),
            outcome_root: self.outcome_root.deep_view(),
            app_hash: self.app_hash.deep_view(),
            validators: self.validators.deep_view(),
        }
    }
}

/// The identifier of a header.
pub open spec fn header_id(h: BlockHeaderView) -> Hash32 {
    digest(Domain::BlockHeader, BlockHeader::bytes_of(h))
}

impl BlockHeader {
    /// The block's identifier.
    pub fn id(&self) -> (id: Hash32)
        ensures
            id == header_id(self.deep_view()),
    {
        hash(Domain::BlockHeader, self.to_bytes().as_slice())
    }
}

/// A header and the transactions it commits to.
#[derive(Debug, Clone, PartialEq, Eq)]
pub struct Block {
    /// The header.
    pub header: BlockHeader,
    /// The transactions, in order.
    pub transactions: Vec<Transaction>,
}

/// The mathematical view of a [`Block`].
pub struct BlockView {
    pub header: BlockHeaderView,
    pub transactions: Seq<TxView>,
}

impl DeepView for Block {
    type V = BlockView;

    open spec fn deep_view(&self) -> BlockView {
        BlockView {
            header: self.header.deep_view(),
            transactions: self.transactions.deep_view(),
        }
    }
}

/// An account that a transaction touched, and the transaction that touched it before.
#[derive(Debug, Clone, Copy, PartialEq, Eq)]
pub struct Link {
    /// The account.
    pub address: Address,
    /// Where its pointer stood before.
    pub previous: Option<TxPointer>,
}

impl DeepView for Link {
    type V = Link;

    open spec fn deep_view(&self) -> Link {
        *self
    }
}

/// What a transaction did: the committed half of its execution.
#[derive(Debug, Clone, PartialEq, Eq)]
pub struct TxReceipt {
    /// The transaction this is about.
    pub tx_id: Hash32,
    /// The accounts it touched.
    pub links: Vec<Link>,
}

/// The mathematical view of a [`TxReceipt`].
pub struct ReceiptView {
    pub tx_id: Hash32,
    pub links: Seq<Link>,
}

impl DeepView for TxReceipt {
    type V = ReceiptView;

    open spec fn deep_view(&self) -> ReceiptView {
        ReceiptView {
            tx_id: self.tx_id.deep_view(),
            links: self.links.deep_view(),
        }
    }
}

/// The place of the first link of an account; past the last one if there is none.
pub open spec fn link_at(links: Seq<Link>, address: Address) -> nat
    decreases links.len(),
{
    if links.len() == 0 {
        0
    } else if links[0].address == address {
        0
    } else {
        1 + link_at(links.drop_first(), address)
    }
}

impl ReceiptView {
    /// The pointer that an account had before the transaction: outer `None` where the
    /// receipt does not name the account.
    pub open spec fn predecessor(self, address: Address) -> Option<Option<TxPointer>> {
        let i = link_at(self.links, address);
        if i < self.links.len() {
            Some(self.links[i as int].previous)
        } else {
            None
        }
    }
}

impl TxReceipt {
    /// The pointer that an account had before this transaction moved it.
    ///
    /// Fails where the receipt does not mention the account at all.
    pub fn previous_for(&self, address: &Address) -> (r: Result<Option<TxPointer>, ()>)
        ensures
            match self.deep_view().predecessor(*address) {
                Some(previous) => r == Ok::<Option<TxPointer>, ()>(previous),
                None => r is Err,
            },
    {
        let ghost all = self.links.deep_view();
        assert(all =~= self.links@);
        let mut i: usize = 0;
        assert(all.skip(0) =~= all);
        while i < self.links.len()
            invariant
                i <= self.links@.len(),
                all == self.links@,
                all == self.deep_view().links,
                link_at(all, *address) == i + link_at(all.skip(i as int), *address),
            decreases self.links@.len() - i,
        {
            let ghost rest = all.skip(i as int);
            assert(rest[0] == all[i as int]);
            assert(rest.drop_first() =~= all.skip(i as int + 1));
            if self.links[i].address == *address {
                return Ok(self.links[i].previous);
            }
            i += 1;
        }
        assert(all.skip(all.len() as int) =~= Seq::empty());
        Err(())
    }
}

/// The bytes of a header.
#[verifier::opaque]
pub open spec fn header_bytes(v: BlockHeaderView) -> Seq<u8> {
    HeaderFields::bytes_of(
        (
            v.chain_id,
            (
                v.height,
                (v.time, (v.parent, (v.tx_root, (v.outcome_root, (v.app_hash, v.validators))))),
            ),
        )
    )
}

/// Reading a header.
#[verifier::opaque]
pub open spec fn parse_header(s: Seq<u8>) -> Parsed<BlockHeaderView> {
    HeaderFields::parse(s).map(
        |t: (Seq<char>, (Height, (Timestamp, (Hash32, (Hash32, (Hash32, (Hash32, Hash32)))))))|
            BlockHeaderView {
                chain_id: t.0,
                height: t.1.0,
                time: t.1.1.0,
                parent: t.1.1.1.0,
                tx_root: t.1.1.1.1.0,
                outcome_root: t.1.1.1.1.1.0,
                app_hash: t.1.1.1.1.1.1.0,
                validators: t.1.1.1.1.1.1.1,
            },
    )
}

/// Whether the wire format admits a header.
#[verifier::opaque]
pub open spec fn header_valid(v: BlockHeaderView) -> bool {
    HeaderFields::valid(
        (
            v.chain_id,
            (
                v.height,
                (v.time, (v.parent, (v.tx_root, (v.outcome_root, (v.app_hash, v.validators))))),
            ),
        )
    )
}

impl Encode for BlockHeader {
    open spec fn bytes_of(v: BlockHeaderView) -> Seq<u8> {
        header_bytes(v)
    }

    fn encode(&self, out: &mut Vec<u8>) {
        broadcast use wire::lemma_concat_assoc;

        reveal(header_bytes);
        self.chain_id.encode(out);
        self.height.encode(out);
        self.time.encode(out);
        self.parent.encode(out);
        self.tx_root.encode(out);
        self.outcome_root.encode(out);
        self.app_hash.encode(out);
        self.validators.encode(out);
    }
}

impl Decode for BlockHeader {
    open spec fn parse(s: Seq<u8>) -> Parsed<BlockHeaderView> {
        parse_header(s)
    }

    fn decode(r: &mut Reader<'_>) -> (res: Result<Self, CodecError>) {
        reveal(parse_header);
        let chain_id = ChainId::decode(r)?;
        let height = Height::decode(r)?;
        let time = Timestamp::decode(r)?;
        let parent = Hash32::decode(r)?;
        let tx_root = Hash32::decode(r)?;
        let outcome_root = Hash32::decode(r)?;
        let app_hash = Hash32::decode(r)?;
        let validators = Hash32::decode(r)?;
        Ok(
            BlockHeader {
                chain_id,
                height,
                time,
                parent,
                tx_root,
                outcome_root,
                app_hash,
                validators,
            }
        )
    }
}

impl Canonical for BlockHeader {
    open spec fn valid(v: BlockHeaderView) -> bool {
        header_valid(v)
    }

    proof fn round_trip(v: BlockHeaderView, tail: Seq<u8>) {
        reveal(header_bytes);
        reveal(parse_header);
        reveal(header_valid);
        HeaderFields::round_trip(
            (
                v.chain_id,
                (
                    v.height,
                    (v.time, (v.parent, (v.tx_root, (v.outcome_root, (v.app_hash, v.validators))))),
                ),
            ),
            tail,
        );
    }

    proof fn one_encoding(s: Seq<u8>) {
        reveal(header_bytes);
        reveal(parse_header);
        reveal(header_valid);
        HeaderFields::one_encoding(s);
    }
}

/// The bytes of a block.
#[verifier::opaque]
pub open spec fn block_bytes(v: BlockView) -> Seq<u8> {
    <(BlockHeader, Vec<Transaction>)>::bytes_of((v.header, v.transactions))
}

/// Reading a block.
#[verifier::opaque]
pub open spec fn parse_block(s: Seq<u8>) -> Parsed<BlockView> {
    <(BlockHeader, Vec<Transaction>)>::parse(s).map(
        |t: (BlockHeaderView, Seq<TxView>)|
            BlockView { header: t.0, transactions: t.1 },
    )
}

/// Whether the wire format admits a block.
#[verifier::opaque]
pub open spec fn block_valid(v: BlockView) -> bool {
    <(BlockHeader, Vec<Transaction>)>::valid((v.header, v.transactions))
}

impl Encode for Block {
    open spec fn bytes_of(v: BlockView) -> Seq<u8> {
        block_bytes(v)
    }

    fn encode(&self, out: &mut Vec<u8>) {
        broadcast use wire::lemma_concat_assoc;

        reveal(block_bytes);
        self.header.encode(out);
        self.transactions.encode(out);
    }
}

impl Decode for Block {
    open spec fn parse(s: Seq<u8>) -> Parsed<BlockView> {
        parse_block(s)
    }

    fn decode(r: &mut Reader<'_>) -> (res: Result<Self, CodecError>) {
        reveal(parse_block);
        let header = BlockHeader::decode(r)?;
        let transactions = Vec::<Transaction>::decode(r)?;
        Ok(Block { header, transactions })
    }
}

impl Canonical for Block {
    open spec fn valid(v: BlockView) -> bool {
        block_valid(v)
    }

    proof fn round_trip(v: BlockView, tail: Seq<u8>) {
        reveal(block_bytes);
        reveal(parse_block);
        reveal(block_valid);
        <(BlockHeader, Vec<Transaction>)>::round_trip((v.header, v.transactions), tail);
    }

    proof fn one_encoding(s: Seq<u8>) {
        reveal(block_bytes);
        reveal(parse_block);
        reveal(block_valid);
        <(BlockHeader, Vec<Transaction>)>::one_encoding(s);
    }
}

impl Encode for Link {
    open spec fn bytes_of(v: Link) -> Seq<u8> {
        <(Address, Option<TxPointer>)>::bytes_of((v.address, v.previous))
    }

    fn encode(&self, out: &mut Vec<u8>) {
        broadcast use wire::lemma_concat_assoc;

        self.address.encode(out);
        self.previous.encode(out);
    }
}

impl Decode for Link {
    open spec fn parse(s: Seq<u8>) -> Parsed<Link> {
        <(Address, Option<TxPointer>)>::parse(s).map(
            |t: (Address, Option<TxPointer>)|
                Link { address: t.0, previous: t.1 },
        )
    }

    fn decode(r: &mut Reader<'_>) -> (res: Result<Self, CodecError>) {
        let address = Address::decode(r)?;
        let previous = Option::<TxPointer>::decode(r)?;
        Ok(Link { address, previous })
    }
}

impl Canonical for Link {
    open spec fn valid(v: Link) -> bool {
        <(Address, Option<TxPointer>)>::valid((v.address, v.previous))
    }

    proof fn round_trip(v: Link, tail: Seq<u8>) {
        <(Address, Option<TxPointer>)>::round_trip((v.address, v.previous), tail);
    }

    proof fn one_encoding(s: Seq<u8>) {
        <(Address, Option<TxPointer>)>::one_encoding(s);
    }
}

/// The bytes of a receipt.
#[verifier::opaque]
pub open spec fn receipt_bytes(v: ReceiptView) -> Seq<u8> {
    <(Hash32, Vec<Link>)>::bytes_of((v.tx_id, v.links))
}

/// Reading a receipt.
#[verifier::opaque]
pub open spec fn parse_receipt(s: Seq<u8>) -> Parsed<ReceiptView> {
    <(Hash32, Vec<Link>)>::parse(s).map(
        |t: (Hash32, Seq<Link>)|
            ReceiptView { tx_id: t.0, links: t.1 },
    )
}

/// Whether the wire format admits a receipt.
#[verifier::opaque]
pub open spec fn receipt_valid(v: ReceiptView) -> bool {
    <(Hash32, Vec<Link>)>::valid((v.tx_id, v.links))
}

impl Encode for TxReceipt {
    open spec fn bytes_of(v: ReceiptView) -> Seq<u8> {
        receipt_bytes(v)
    }

    fn encode(&self, out: &mut Vec<u8>) {
        broadcast use wire::lemma_concat_assoc;

        reveal(receipt_bytes);
        self.tx_id.encode(out);
        self.links.encode(out);
    }
}

impl Decode for TxReceipt {
    open spec fn parse(s: Seq<u8>) -> Parsed<ReceiptView> {
        parse_receipt(s)
    }

    fn decode(r: &mut Reader<'_>) -> (res: Result<Self, CodecError>) {
        reveal(parse_receipt);
        let tx_id = Hash32::decode(r)?;
        let links = Vec::<Link>::decode(r)?;
        Ok(TxReceipt { tx_id, links })
    }
}

impl Canonical for TxReceipt {
    open spec fn valid(v: ReceiptView) -> bool {
        receipt_valid(v)
    }

    proof fn round_trip(v: ReceiptView, tail: Seq<u8>) {
        reveal(receipt_bytes);
        reveal(parse_receipt);
        reveal(receipt_valid);
        <(Hash32, Vec<Link>)>::round_trip((v.tx_id, v.links), tail);
    }

    proof fn one_encoding(s: Seq<u8>) {
        reveal(receipt_bytes);
        reveal(parse_receipt);
        reveal(receipt_valid);
        <(Hash32, Vec<Link>)>::one_encoding(s);
    }
}

} // verus!
