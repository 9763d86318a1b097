//! The append-only log a witness operates.

use crate::crypto::hash::{clash_free, digest, hash, Domain, Hash32, Preimage};
use crate::crypto::keys::{signature_of, verifying_key_of, SecretKey};
use crate::crypto::merkle::{
    growth_path, joined_growing, joined_in, law_consistency_proofs_are_complete,
    law_consistency_proofs_are_sound, grows, path_to, root_over, ConsistencyProof, MerkleProof,
    MerkleTree,
};
use crate::primitives::codec::{
    law_encoding_is_injective, Canonical, CodecError, Decode, Encode, Parsed, Reader,
};
use crate::primitives::ids::{ChainId, Height, Timestamp};
use crate::primitives::wire;
use crate::witness::error::WitnessError;
use crate::witness::head::{log_of, HeadView, LogId, SignedTreeHead, TreeHead};
use vstd::prelude::*;

verus! {

/// One observation: at this wall-clock time, the chain's tip was this block.
#[derive(Debug, Clone, Copy, PartialEq, Eq)]
pub struct LogEntry {
    /// Height observed.
    pub height: Height,
    /// The block at that height.
    pub block_id: Hash32,
    /// The witness's wall clock when it observed. Advisory.
    pub observed_at: Timestamp,
}

impl DeepView for LogEntry {
    type V = LogEntry;

    open spec fn deep_view(&self) -> LogEntry {
        *self
    }
}

/// The leaf that an entry contributes to a log's tree.
pub open spec fn entry_leaf(e: LogEntry) -> Hash32 {
    digest(Domain::WitnessEntry, LogEntry::bytes_of(e))
}

/// The leaves of some entries.
pub open spec fn entry_leaves(entries: Seq<LogEntry>) -> Seq<Hash32> {
    Seq::new(entries.len(), |i: int| entry_leaf(entries[i]))
}

/// The root of a log over some entries.
pub open spec fn log_root(entries: Seq<LogEntry>) -> Hash32 {
    root_over(entry_leaves(entries))
}

impl LogEntry {
    /// The leaf hash this entry contributes to the log's Merkle tree.
    pub fn leaf(&self) -> (h: Hash32)
        ensures
            h == entry_leaf(*self),
    {
        hash(Domain::WitnessEntry, self.to_bytes().as_slice())
    }
}

/// Whether an entry may follow another: later in height, and in time.
pub open spec fn follows(entry: LogEntry, last: LogEntry) -> bool {
    entry.height.0 > last.height.0 && entry.observed_at.0 > last.observed_at.0
}

/// Whether entries go strictly forward in height and in time.
pub open spec fn goes_forward(entries: Seq<LogEntry>) -> bool {
    forall|i: int, j: int|
        0 <= i < j < entries.len() ==> follows(#[trigger] entries[j], #[trigger] entries[i])
}

/// A witness's append-only log of what it saw on the chain.
#[derive(Debug)]
pub struct WitnessLog {
    chain_id: ChainId,
    log: LogId,
    entries: Vec<LogEntry>,
}

/// The mathematical view of a [`WitnessLog`].
pub struct LogView {
    pub chain_id: Seq<char>,
    pub log: LogId,
    pub entries: Seq<LogEntry>,
}

impl View for WitnessLog {
    type V = LogView;

    closed spec fn view(&self) -> LogView {
        LogView { chain_id: self.chain_id@, log: self.log, entries: self.entries@ }
    }
}

impl Clone for WitnessLog {
    fn clone(&self) -> (r: Self)
        ensures
            r@ == self@,
    {
        proof {
            use_type_invariant(self);
        }
        let mut entries: Vec<LogEntry> = Vec::new();
        let mut i: usize = 0;
        while i < self.entries.len()
            invariant
                i <= self.entries@.len(),
                entries@ == self.entries@.take(i as int),
            decreases self.entries@.len() - i,
        {
            entries.push(self.entries[i]);
            assert(self.entries@.take(i as int + 1) =~= entries@);
            i += 1;
        }
        assert(entries@ =~= self.entries@);
        WitnessLog { chain_id: self.chain_id.clone(), log: self.log, entries }
    }
}

impl LogView {
    /// The head that describes the log.
    pub open spec fn head(self, signed_at: Timestamp) -> HeadView {
        HeadView {
            log: self.log,
            chain_id: self.chain_id,
            size: self.entries.len() as u64,
            root: log_root(self.entries),
            signed_at,
        }
    }
}

impl WitnessLog {
    /// A log never revisits a height and never turns back its clock.
    #[verifier::type_invariant]
    pub open spec fn well_formed(self) -> bool {
        goes_forward(self@.entries)
    }

    /// An empty log for `chain_id`, named by `log`.
    pub fn new(chain_id: ChainId, log: LogId) -> (l: Self)
        ensures
            l@ == (LogView { chain_id: chain_id@, log, entries: Seq::empty() }),
    {
        WitnessLog { chain_id, log, entries: Vec::new() }
    }

    /// Append an observation, and return its index.
    ///
    /// Both height and time must strictly increase: the chain can never revisit a
    /// height, and a log whose timestamps wander is one whose ordering carries no
    /// information.
    pub fn append(&mut self, entry: LogEntry) -> (r: Result<u64, WitnessError>)
        ensures
            ({
                let before = old(self)@;
                if before.entries.len() == 0 || follows(entry, before.entries.last()) {
                    &&& r == Ok::<u64, WitnessError>(before.entries.len() as u64)
                    &&& final(self)@ == (LogView { entries: before.entries.push(entry), ..before })
                } else {
                    &&& r == Err::<u64, WitnessError>(
                        WitnessError::NonMonotonic {
                            got: entry.height.0,
                            last: before.entries.last().height.0,
                        },
                    )
                    &&& final(self)@ == before
                }
            }),
    {
        proof {
            use_type_invariant(&*self);
        }
        let n: usize = self.entries.len();
        if n > 0 {
            let last = self.entries[n - 1];
            if entry.height.0 <= last.height.0 || entry.observed_at.0 <= last.observed_at.0 {
                return Err(
                    WitnessError::NonMonotonic { got: entry.height.0, last: last.height.0 },
                );
            }
        }
        let ghost before = self.entries@;
        proof {
            let after = before.push(entry);
            assert forall|i: int, j: int| 0 <= i < j < after.len() implies follows(
                #[trigger] after[j],
                #[trigger] after[i],
            ) by {
                if j == before.len() && i < before.len() - 1 {
                    assert(follows(before[before.len() - 1], before[i]));
                }
            }
        }
        let mut entries: Vec<LogEntry> = Vec::new();
        std::mem::swap(&mut entries, &mut self.entries);
        entries.push(entry);
        self.entries = entries;
        Ok(n as u64)
    }

    /// Which chain this log observes.
    pub fn chain_id(&self) -> (c: &ChainId)
        ensures
            c@ == self@.chain_id,
    {
        &self.chain_id
    }

    /// Number of entries.
    pub fn size(&self) -> (n: u64)
        ensures
            n == self@.entries.len(),
    {
        self.entries.len() as u64
    }

    /// The entry at `index`, if any.
    pub fn entry(&self, index: u64) -> (e: Option<&LogEntry>)
        ensures
            match e {
                Some(e) => index < self@.entries.len() && *e == self@.entries[index as int],
                None => index >= self@.entries.len(),
            },
    {
        if index < self.entries.len() as u64 {
            Some(&self.entries[index as usize])
        } else {
            None
        }
    }

    /// The most recent entry, if any.
    pub fn latest(&self) -> (e: Option<&LogEntry>)
        ensures
            match e {
                Some(e) => self@.entries.len() > 0 && *e == self@.entries.last(),
                None => self@.entries.len() == 0,
            },
    {
        let n: usize = self.entries.len();
        if n > 0 {
            Some(&self.entries[n - 1])
        } else {
            None
        }
    }

    fn tree(&self) -> (t: MerkleTree)
        ensures
            t@ == entry_leaves(self@.entries),
    {
        let mut leaves: Vec<Hash32> = Vec::new();
        let mut i: usize = 0;
        while i < self.entries.len()
            invariant
                i <= self.entries@.len(),
                leaves@ =~= Seq::new(i as nat, |j: int| entry_leaf(self.entries@[j])),
            decreases self.entries@.len() - i,
        {
            leaves.push(self.entries[i].leaf());
            i += 1;
        }
        MerkleTree::from_leaf_hashes(leaves)
    }

    /// The current Merkle root.
    pub fn root(&self) -> (h: Hash32)
        ensures
            h == log_root(self@.entries),
    {
        self.tree().root()
    }

    /// The head to publish at `signed_at`.
    pub fn head(&self, signed_at: Timestamp) -> (h: TreeHead)
        ensures
            h.deep_view() == self@.head(signed_at),
    {
        TreeHead {
            log: self.log,
            chain_id: self.chain_id.clone(),
            size: self.size(),
            root: self.root(),
            signed_at,
        }
    }

    /// Sign and publish the current head. Refused where `key` is not the key this
    /// log is named after.
    pub fn sign_head(&self, key: &SecretKey, signed_at: Timestamp) -> (r: Result<
        SignedTreeHead,
        WitnessError,
    >)
        ensures
            match r {
                Ok(s) => {
                    &&& log_of(verifying_key_of(key@)@) == self@.log
                    &&& s.head.deep_view() == self@.head(signed_at)
                    &&& s.signature.0 == signature_of(
                        key@,
                        digest(Domain::TreeHeadSignDoc, self@.head(signed_at).document()).0@,
                    )
                },
                Err(e) => {
                    &&& log_of(verifying_key_of(key@)@) != self@.log
                    &&& e == WitnessError::LogMismatch
                },
            },
    {
        if LogId::from_public_key(&key.public_key()) != self.log {
            return Err(WitnessError::LogMismatch);
        }
        Ok(self.head(signed_at).sign(key))
    }

    /// Prove that the entry at `index` is committed under the current root.
    pub fn prove_inclusion(&self, index: u64) -> (r: Result<MerkleProof, WitnessError>)
        ensures
            match r {
                Ok(p) => {
                    &&& index < self@.entries.len()
                    &&& p.index == index
                    &&& p.total == self@.entries.len()
                    &&& p.siblings@ == path_to(entry_leaves(self@.entries), index as int)
                },
                Err(e) => index >= self@.entries.len() && e == WitnessError::IndexOutOfRange,
            },
    {
        if index >= self.entries.len() as u64 {
            return Err(WitnessError::IndexOutOfRange);
        }
        match self.tree().prove(index as usize) {
            Ok(p) => Ok(p),
            Err(_) => Err(WitnessError::IndexOutOfRange),
        }
    }

    /// Prove that the log at `old_size` is a prefix of the log now.
    ///
    /// A wallet that remembers one head can demand this and check it locally; a
    /// witness that rewrote or dropped anything cannot produce it.
    pub fn prove_consistency(&self, old_size: u64) -> (r: Result<ConsistencyProof, WitnessError>)
        ensures
            match r {
                Ok(p) => {
                    &&& old_size <= self@.entries.len()
                    &&& p.old_size == old_size
                    &&& p.new_size == self@.entries.len()
                    &&& p.digests@ == if old_size == 0 {
                        Seq::empty()
                    } else {
                        growth_path(entry_leaves(self@.entries), old_size as int, true)
                    }
                },
                Err(e) => {
                    &&& old_size > self@.entries.len()
                    &&& e == (WitnessError::SizeMismatch {
                        got: old_size,
                        expected: self@.entries.len() as u64,
                    })
                },
            },
    {
        if old_size > self.entries.len() as u64 {
            return Err(WitnessError::SizeMismatch { got: old_size, expected: self.size() });
        }
        match self.tree().prove_consistency(old_size as usize) {
            Ok(p) => Ok(p),
            Err(_) => Err(WitnessError::SizeMismatch { got: old_size, expected: self.size() }),
        }
    }
}

/// A log that only ever appended can show every earlier head to be a prefix of what
/// it is now, however long ago that head was seen.
pub proof fn law_growth_can_always_be_shown(entries: Seq<LogEntry>, old: nat)
    requires
        old <= entries.len(),
    ensures
        grows(
            log_root(entries.take(old as int)),
            log_root(entries),
            old,
            entries.len(),
            if old == 0 {
                Seq::empty()
            } else {
                growth_path(entry_leaves(entries), old as int, true)
            },
        ),
{
    law_consistency_proofs_are_complete(entry_leaves(entries), old);
    assert(entry_leaves(entries).take(old as int) =~= entry_leaves(entries.take(old as int)));
}

/// What is hashed for the leaves of some entries.
pub open spec fn leaf_preimages(entries: Seq<LogEntry>) -> Set<Preimage> {
    Set::new(|p: Preimage| exists|i: int|
        0 <= i < entries.len() && p == entry_preimage(#[trigger] entries[i]))
}

/// What is hashed for the leaf of an entry.
pub open spec fn entry_preimage(e: LogEntry) -> Preimage {
    Preimage { domain: Domain::WitnessEntry, bytes: LogEntry::bytes_of(e) }
}

/// A witness that rewrote or dropped history cannot show otherwise: where a proof
/// reconciles the root a wallet remembers with a later one, what the wallet saw is
/// still there, entry for entry, as long as no two of the hashed preimages clash.
pub proof fn law_rewriting_is_caught(
    seen: Seq<LogEntry>,
    shown: Seq<LogEntry>,
    digests: Seq<Hash32>,
    hashed: Set<Preimage>,
)
    requires
        clash_free(hashed),
        leaf_preimages(seen).subset_of(hashed),
        leaf_preimages(shown).subset_of(hashed),
        joined_in(entry_leaves(seen)).subset_of(hashed),
        joined_in(entry_leaves(shown)).subset_of(hashed),
        joined_in(entry_leaves(shown).take(seen.len() as int)).subset_of(hashed),
        joined_growing(
            seen.len() as int,
            shown.len(),
            Some(log_root(seen)),
            digests,
        ).subset_of(hashed),
        grows(log_root(seen), log_root(shown), seen.len(), shown.len(), digests),
    ensures
        seen.len() <= shown.len(),
        seen == shown.take(seen.len() as int),
{
    let a = entry_leaves(seen);
    let b = entry_leaves(shown);
    law_consistency_proofs_are_sound(a, b, digests, hashed);
    assert forall|i: int| 0 <= i < seen.len() implies seen[i] == shown[i] by {
        assert(a[i] == b.take(seen.len() as int)[i]);
        let x = entry_preimage(seen[i]);
        let y = entry_preimage(shown[i]);
        assert(leaf_preimages(seen).contains(x));
        assert(leaf_preimages(shown).contains(y));
        assert(hashed.contains(x) && hashed.contains(y));
        assert(x.hash() == a[i] && y.hash() == b[i]);
        law_encoding_is_injective::<LogEntry>(seen[i], shown[i]);
    }
    assert(seen =~= shown.take(seen.len() as int));
}

impl Encode for LogEntry {
    open spec fn bytes_of(v: LogEntry) -> Seq<u8> {
        <(Height, (Hash32, Timestamp))>::bytes_of((v.height, (v.block_id, v.observed_at)))
    }

    fn encode(&self, out: &mut Vec<u8>) {
        broadcast use wire::lemma_concat_assoc;

        self.height.encode(out);
        self.block_id.encode(out);
        self.observed_at.encode(out);
    }
}

impl Decode for LogEntry {
    open spec fn parse(s: Seq<u8>) -> Parsed<LogEntry> {
        <(Height, (Hash32, Timestamp))>::parse(s).map(
            |t: (Height, (Hash32, Timestamp))|
                LogEntry { height: t.0, block_id: t.1.0, observed_at: t.1.1 },
        )
    }

    fn decode(r: &mut Reader<'_>) -> (res: Result<Self, CodecError>) {
        let height = Height::decode(r)?;
        let block_id = Hash32::decode(r)?;
        let observed_at = Timestamp::decode(r)?;
        Ok(LogEntry { height, block_id, observed_at })
    }
}

impl Canonical for LogEntry {
    open spec fn valid(v: LogEntry) -> bool {
        <(Height, (Hash32, Timestamp))>::valid((v.height, (v.block_id, v.observed_at)))
    }

    proof fn round_trip(v: LogEntry, tail: Seq<u8>) {
        <(Height, (Hash32, Timestamp))>::round_trip((v.height, (v.block_id, v.observed_at)), tail);
    }

    proof fn one_encoding(s: Seq<u8>) {
        <(Height, (Hash32, Timestamp))>::one_encoding(s);
    }
}

} // verus!
