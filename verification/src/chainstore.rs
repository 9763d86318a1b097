//! What a chain store makes of the records it keeps.
//!
//! A store keeps every block and every commit certificate by height, and the height of
//! the tip. State is not kept: on startup it is rebuilt by replaying the blocks from
//! genesis, and every replayed block's state root is held to the one in its header, so
//! a corrupt database, or a change in execution semantics under a stored chain, stops
//! the node rather than forking it.

use crate::chain::{Block, BlockView};
use crate::consensus::{Commit, CommitView};
use crate::crypto::hash::Hash32;
use crate::primitives::codec::{
    decode_exact, law_decode_exact_inverts_encode, parse_exact, Decode, Encode,
};
use crate::primitives::ids::Height;
use crate::primitives::text;
use crate::rpc::query::{QueryError, QueryFault, SignedHeader, SignedHeaderView};
use vstd::prelude::*;

verus! {

/// Why a storage operation failed.
#[derive(Debug, Clone, PartialEq, Eq)]
pub enum StoreError {
    /// The underlying database reported a failure.
    Database(String),
    /// Stored bytes did not decode.
    Corrupt {
        /// Which record.
        what: String,
        /// Decoder message.
        reason: String,
    },
    /// The store holds no genesis, so nothing can be replayed.
    NoGenesis,
    /// A height between genesis and the tip is missing.
    MissingBlock(u64),
    /// Applying genesis failed.
    Genesis(String),
    /// Replay produced a different state than the stored header claims. The node must not start.
    StateDivergence {
        /// Height at which the mismatch appeared.
        height: u64,
        /// Hash computed by replaying.
        computed: String,
        /// Hash recorded in the stored header.
        expected: String,
    },
}

/// The mathematical view of a [`StoreError`].
pub enum StoreFault {
    Database(Seq<char>),
    Corrupt { what: Seq<char>, reason: Seq<char> },
    NoGenesis,
    MissingBlock(u64),
    Genesis(Seq<char>),
    StateDivergence { height: u64, computed: Seq<char>, expected: Seq<char> },
}

impl DeepView for StoreError {
    type V = StoreFault;

    open spec fn deep_view(&self) -> StoreFault {
        match *self {
            StoreError::Database(reason) => StoreFault::Database(reason.deep_view()),
            StoreError::Corrupt { what, reason } =>
                StoreFault::Corrupt { what: what.deep_view(), reason: reason.deep_view() },
            StoreError::NoGenesis => StoreFault::NoGenesis,
            StoreError::MissingBlock(height) => StoreFault::MissingBlock(height.deep_view()),
            StoreError::Genesis(reason) => StoreFault::Genesis(reason.deep_view()),
            StoreError::StateDivergence { height, computed, expected } =>
                StoreFault::StateDivergence {
                    height: height.deep_view(),
                    computed: computed.deep_view(),
                    expected: expected.deep_view(),
                },
        }
    }
}

impl StoreFault {
    /// The sentence that describes this error.
    pub open spec fn text(self) -> Seq<char> {
        match self {
            StoreFault::Database(reason) => "database: "@ + reason,
            StoreFault::Corrupt { what, reason } => "corrupt record at "@ + what + ": "@ + reason,
            StoreFault::NoGenesis => "store has no genesis"@,
            StoreFault::MissingBlock(height) => "block "@ + text::decimal(height as nat)
                + " is missing from an otherwise complete chain"@,
            StoreFault::Genesis(reason) => reason,
            StoreFault::StateDivergence { height, computed, expected } =>
                "replay diverged at height "@
                + text::decimal(height as nat) + ": computed "@ + computed + ", header says "@
                + expected,
        }
    }
}

impl StoreError {
    /// The sentence that describes this error.
    pub fn to_string(&self) -> (s: String)
        ensures
            s@ == self.deep_view().text(),
    {
        match self {
            StoreError::Database(reason) => {
                let mut s = String::from_str("database: ");
                s.append(reason.as_str());
                s
            },
            StoreError::Corrupt { what, reason } => {
                let mut s = String::from_str("corrupt record at ");
                s.append(what.as_str());
                s.append(": ");
                s.append(reason.as_str());
                s
            },
            StoreError::NoGenesis => String::from_str("store has no genesis"),
            StoreError::MissingBlock(height) => {
                let mut s = String::from_str("block ");
                s.append(text::decimal_text(*height as u128).as_str());
                s.append(" is missing from an otherwise complete chain");
                s
            },
            StoreError::Genesis(reason) => {
                let mut s = String::new();
                s.append(reason.as_str());
                assert(s@ =~= reason@);
                s
            },
            StoreError::StateDivergence { height, computed, expected } => {
                let mut s = String::from_str("replay diverged at height ");
                s.append(text::decimal_text(*height as u128).as_str());
                s.append(": computed ");
                s.append(computed.as_str());
                s.append(", header says ");
                s.append(expected.as_str());
                s
            },
        }
    }
}

fn corrupt(what: String, reason: String) -> (e: StoreError)
    ensures
        e.deep_view() == (StoreFault::Corrupt { what: what@, reason: reason@ }),
{
    StoreError::Corrupt { what, reason }
}

/// What a stored record holds.
pub open spec fn record_of<T: Decode>(what: Seq<char>, stored: Option<Seq<u8>>) -> Result<
    Option<T::V>,
    StoreFault,
> {
    match stored {
        None => Ok(None),
        Some(bytes) => match parse_exact::<T>(bytes) {
            Ok(v) => Ok(Some(v)),
            Err(f) => Err(StoreFault::Corrupt { what, reason: f.text() }),
        },
    }
}

fn read_record<T: Decode>(what: String, stored: Option<&[u8]>) -> (r: Result<Option<T>, StoreError>)
    ensures
        match record_of::<T>(what@, stored.deep_view()) {
            Ok(v) => r matches Ok(x) && x.deep_view() == v,
            Err(f) => r matches Err(e) && e.deep_view() == f,
        },
{
    match stored {
        None => Ok(None),
        Some(bytes) => {
            assert(bytes.deep_view() =~= bytes@);
            match decode_exact::<T>(bytes) {
                Ok(v) => Ok(Some(v)),
                Err(e) => Err(corrupt(what, e.to_string())),
            }
        },
    }
}

/// The height of the tip, as stored: genesis where nothing is.
pub open spec fn tip_of(stored: Option<Seq<u8>>) -> Result<Height, StoreFault> {
    match record_of::<Height>("height"@, stored) {
        Ok(Some(h)) => Ok(h),
        Ok(None) => Ok(Height(0)),
        Err(f) => Err(f),
    }
}

/// The highest stored block height.
pub fn stored_height(stored: Option<&[u8]>) -> (r: Result<Height, StoreError>)
    ensures
        match tip_of(stored.deep_view()) {
            Ok(h) => r == Ok::<Height, StoreError>(h),
            Err(f) => r matches Err(e) && e.deep_view() == f,
        },
{
    match read_record::<Height>(String::from_str("height"), stored) {
        Ok(Some(h)) => Ok(h),
        Ok(None) => Ok(Height::genesis()),
        Err(e) => Err(e),
    }
}

/// The tip record that storing a block leaves: it never goes backwards. A record that
/// cannot be read counts as genesis.
pub open spec fn tip_after(stored: Option<Seq<u8>>, height: Height) -> Option<Height> {
    let current = match tip_of(stored) {
        Ok(h) => h,
        Err(_) => Height(0),
    };
    if height.0 >= current.0 {
        Some(height)
    } else {
        None
    }
}

/// The tip record to write when a block is stored, if it has to be written.
pub fn next_tip(stored: Option<&[u8]>, height: Height) -> (r: Option<Vec<u8>>)
    ensures
        match tip_after(stored.deep_view(), height) {
            Some(h) => r matches Some(bytes) && bytes@ == Height::bytes_of(h),
            None => r is None,
        },
{
    let current = match stored_height(stored) {
        Ok(h) => h,
        Err(_) => Height::genesis(),
    };
    if height.0 >= current.0 {
        Some(height.to_bytes())
    } else {
        None
    }
}

/// The genesis record to replay from: without one, nothing can be replayed.
pub fn stored_genesis(stored: Option<Vec<u8>>) -> (r: Result<Vec<u8>, StoreError>)
    ensures
        match stored {
            Some(bytes) => r == Ok::<Vec<u8>, StoreError>(bytes),
            None => r == Err::<Vec<u8>, StoreError>(StoreError::NoGenesis),
        },
{
    match stored {
        Some(bytes) => Ok(bytes),
        None => Err(StoreError::NoGenesis),
    }
}

/// The block in a stored record.
pub fn stored_block(height: Height, stored: Option<&[u8]>) -> (r: Result<
    Option<Block>,
    StoreError,
>)
    ensures
        match record_of::<Block>(
            "block "@ + text::decimal(height.0 as nat),
            stored.deep_view(),
        ) {
            Ok(v) => r matches Ok(x) && x.deep_view() == v,
            Err(f) => r matches Err(e) && e.deep_view() == f,
        },
{
    let mut what = String::from_str("block ");
    what.append(height.to_string().as_str());
    read_record::<Block>(what, stored)
}

/// The commit certificate in a stored record.
pub fn stored_commit(height: Height, stored: Option<&[u8]>) -> (r: Result<
    Option<Commit>,
    StoreError,
>)
    ensures
        match record_of::<Commit>(
            "commit "@ + text::decimal(height.0 as nat),
            stored.deep_view(),
        ) {
            Ok(v) => r matches Ok(x) && x.deep_view() == v,
            Err(f) => r matches Err(e) && e.deep_view() == f,
        },
{
    let mut what = String::from_str("commit ");
    what.append(height.to_string().as_str());
    read_record::<Commit>(what, stored)
}

/// The state root that the tip claims: none at genesis, or where the block is missing.
pub fn tip_app_hash(height: Height, tip: Option<Block>) -> (r: Option<Hash32>)
    ensures
        r == if height.0 == 0 {
            None
        } else {
            match tip.deep_view() {
                Some(b) => Some(b.header.app_hash),
                None => None,
            }
        },
{
    if height.0 == 0 {
        return None;
    }
    match tip {
        Some(block) => Some(block.header.app_hash),
        None => None,
    }
}

/// A block and its certificate, as a light client needs them. A block without its
/// certificate is reported as such: "not found" would send the client looking elsewhere
/// for something this node has.
pub open spec fn signed_header_of(
    height: Height,
    block: Option<BlockView>,
    commit: Option<CommitView>,
) -> Result<Option<SignedHeaderView>, QueryFault> {
    match (block, commit) {
        (None, _) => Ok(None),
        (Some(_), None) => Err(QueryFault::NoCommit(height.0)),
        (Some(block), Some(commit)) => Ok(Some(SignedHeaderView { header: block.header, commit })),
    }
}

/// A block and its certificate, as a light client needs them.
pub fn signed_header(height: Height, block: Option<Block>, commit: Option<Commit>) -> (r: Result<
    Option<SignedHeader>,
    QueryError,
>)
    ensures
        match signed_header_of(height, block.deep_view(), commit.deep_view()) {
            Ok(v) => r matches Ok(x) && x.deep_view() == v,
            Err(f) => r matches Err(e) && e.deep_view() == f,
        },
{
    match block {
        None => Ok(None),
        Some(block) => match commit {
            Some(commit) => Ok(Some(SignedHeader { header: block.header, commit })),
            None => Err(QueryError::NoCommit(height.0)),
        },
    }
}

/// What a query is told of a storage failure: never that a value is missing.
pub fn backend(e: &StoreError) -> (q: QueryError)
    ensures
        q.deep_view() == QueryFault::Backend(e.deep_view().text()),
{
    QueryError::Backend(e.to_string())
}

// ---------------------------------------------------------------------------
// Replay
// ---------------------------------------------------------------------------

/// The mathematical view of a [`Replay`].
pub struct ReplayView {
    /// How many blocks after genesis have been accepted.
    pub done: nat,
    /// The height of the stored tip.
    pub last: nat,
    /// The block that the replay has come to.
    pub tip: BlockView,
}

impl ReplayView {
    /// The height of the block to replay next, if there is one.
    pub open spec fn next(self) -> Option<nat> {
        if self.done < self.last {
            Some(self.done + 1)
        } else {
            None
        }
    }
}

/// A replay of a stored chain from genesis to its tip.
///
/// The caller fetches the block that is [`wanted`](Self::wanted), hands it to
/// [`found`](Self::found), executes it, and hands it to [`accept`](Self::accept) with
/// the state root that executing it gave.
#[derive(Debug)]
pub struct Replay {
    done: u64,
    last: u64,
    tip: Block,
}

impl View for Replay {
    type V = ReplayView;

    closed spec fn view(&self) -> ReplayView {
        ReplayView {
            done: self.done as nat,
            last: self.last as nat,
            tip: self.tip.deep_view(),
        }
    }
}

impl Replay {
    /// Start from the block that applying genesis gave.
    pub fn new(genesis: Block, tip_height: Height) -> (r: Self)
        ensures
            r@ == (ReplayView {
                done: 0,
                last: tip_height.0 as nat,
                tip: genesis.deep_view(),
            }),
    {
        Replay { done: 0, last: tip_height.0, tip: genesis }
    }

    /// The height of the block to replay next, or `None` at the tip.
    pub fn wanted(&self) -> (h: Option<Height>)
        ensures
            match self@.next() {
                Some(n) => h matches Some(h) && h.0 == n,
                None => h is None,
            },
    {
        if self.done < self.last {
            Some(Height(self.done + 1))
        } else {
            None
        }
    }

    /// Refuse a gap: the block at a height that is wanted has to be there.
    pub fn found(height: Height, block: Option<Block>) -> (r: Result<Block, StoreError>)
        ensures
            match block {
                Some(b) => r == Ok::<Block, StoreError>(b),
                None => r matches Err(e) && e.deep_view() == StoreFault::MissingBlock(height.0),
            },
    {
        match block {
            Some(block) => Ok(block),
            None => Err(StoreError::MissingBlock(height.0)),
        }
    }

    /// Accept the block that is wanted, if executing it gave the state root in its
    /// header.
    pub fn accept(&mut self, block: Block, computed: Hash32) -> (r: Result<(), StoreError>)
        requires
            old(self)@.next() is Some,
        ensures
            if computed == block.deep_view().header.app_hash {
                &&& r is Ok
                &&& final(self)@ == (ReplayView {
                    done: old(self)@.next()->0,
                    last: old(self)@.last,
                    tip: block.deep_view(),
                })
            } else {
                &&& r matches Err(e) && e.deep_view() == (StoreFault::StateDivergence {
                    height: old(self)@.next()->0 as u64,
                    computed: text::hex(computed.0@),
                    expected: text::hex(block.deep_view().header.app_hash.0@),
                })
                &&& final(self)@ == old(self)@
            },
    {
        if !computed.same(&block.header.app_hash) {
            return Err(
                StoreError::StateDivergence {
                    height: self.done + 1,
                    computed: computed.to_hex(),
                    expected: block.header.app_hash.to_hex(),
                },
            );
        }
        self.done = self.done + 1;
        self.tip = block;
        Ok(())
    }

    /// The block that the replay has come to.
    pub fn into_tip(self) -> (b: Block)
        ensures
            b.deep_view() == self@.tip,
    {
        self.tip
    }
}

/// Storing a block never moves the tip backwards, and the tip record that is written
/// reads back.
pub proof fn law_the_tip_never_rewinds(stored: Option<Seq<u8>>, height: Height)
    requires
        tip_of(stored) is Ok,
    ensures
        tip_after(stored, height) matches Some(h) ==> h == height && h.0 >= tip_of(stored)->Ok_0.0,
        tip_after(stored, height) is None ==> height.0 < tip_of(stored)->Ok_0.0,
        tip_after(stored, height) matches Some(h) ==> tip_of(Some(Height::bytes_of(h))) == Ok::<
            Height,
            StoreFault,
        >(h),
{
    law_decode_exact_inverts_encode::<Height>(height);
}

} // verus!
