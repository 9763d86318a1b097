//! The wallet side: known witnesses, and the checks that turn a witness's claim
//! into something a wallet is allowed to act on.
//!
//! An [`Observation`] cannot be made by hand. The only way to obtain one is
//! [`WitnessSet::observe`], which checks the signature, the chain and the inclusion
//! proof first.

use crate::crypto::hash::Hash32;
use crate::crypto::keys::PublicKey;
use crate::crypto::merkle::{climbed, grows, ConsistencyProof, MerkleProof};
use crate::primitives::ids::{ChainId, Height, Timestamp};
use crate::primitives::text;
use crate::witness::error::{audited, WitnessError, WitnessFault};
use crate::witness::head::{log_of, LogId, SignedHeadView, SignedTreeHead};
use crate::witness::log::{entry_leaf, LogEntry};
use vstd::prelude::*;

verus! {

/// A witness a wallet is willing to listen to.
#[derive(Debug, Clone, PartialEq, Eq)]
pub struct Witness {
    /// The log's identifier, derived from `key`.
    pub log: LogId,
    /// The key the witness signs heads with.
    pub key: PublicKey,
    /// ISO 3166-1 alpha-2 code of the licensing jurisdiction.
    pub country: [u8; 2],
    /// Human-readable label, for wallets to display.
    pub name: String,
}

/// The mathematical view of a [`Witness`].
pub struct WitnessView {
    pub log: LogId,
    pub key: Seq<u8>,
    pub country: [u8; 2],
    pub name: Seq<char>,
}

impl DeepView for Witness {
    type V = WitnessView;

    open spec fn deep_view(&self) -> WitnessView {
        WitnessView { log: self.log, key: self.key@, country: self.country, name: self.name@ }
    }
}

impl Witness {
    /// Build a witness from its signing key, deriving the log identifier.
    pub fn new(key: PublicKey, country: [u8; 2], name: &str) -> (w: Self)
        ensures
            w.deep_view() == (WitnessView { log: log_of(key@), key: key@, country, name: name@ }),
    {
        Witness { log: LogId::from_public_key(&key), key, country, name: String::from_str(name) }
    }
}

/// Whether two country codes are the same.
pub(crate) fn same_country(a: &[u8; 2], b: &[u8; 2]) -> (r: bool)
    ensures
        r == (*a == *b),
{
    let same = text::same_bytes(a, b);
    proof {
        if same {
            assert(*a =~= *b);
        }
    }
    same
}

/// The set of witnesses a wallet ships with.
///
/// A bootstrap list, not an authority: a witness in here can be caught lying by any
/// other, and none can cause anything to happen on the chain.
#[derive(Debug)]
pub struct WitnessSet {
    witnesses: Vec<Witness>,
}

impl View for WitnessSet {
    type V = Seq<WitnessView>;

    closed spec fn view(&self) -> Seq<WitnessView> {
        self.witnesses.deep_view()
    }
}

impl Clone for WitnessSet {
    fn clone(&self) -> (r: Self)
        ensures
            r@ == self@,
    {
        proof {
            use_type_invariant(self);
        }
        let mut witnesses: Vec<Witness> = Vec::new();
        let mut i: usize = 0;
        while i < self.witnesses.len()
            invariant
                i <= self.witnesses@.len(),
                witnesses.deep_view() == self.witnesses.deep_view().take(i as int),
            decreases self.witnesses@.len() - i,
        {
            let w = &self.witnesses[i];
            let ghost before = witnesses.deep_view();
            witnesses.push(
                Witness { log: w.log, key: w.key, country: w.country, name: w.name.clone() },
            );
            assert(witnesses.deep_view() =~= before.push(w.deep_view()));
            assert(self.witnesses.deep_view().take(i as int + 1) =~= before.push(w.deep_view()));
            i += 1;
        }
        assert(witnesses.deep_view() =~= self.witnesses.deep_view());
        WitnessSet { witnesses }
    }
}

/// Whether no log appears twice.
pub open spec fn logs_distinct(witnesses: Seq<WitnessView>) -> bool {
    forall|i: int, j: int|
        0 <= i < j < witnesses.len() ==> (#[trigger] witnesses[i]).log != (
        #[trigger] witnesses[j]).log
}

/// The witness with a log, if the set has one.
pub open spec fn witness_with(witnesses: Seq<WitnessView>, log: LogId) -> Option<WitnessView>
    decreases witnesses.len(),
{
    if witnesses.len() == 0 {
        None
    } else if witnesses[0].log == log {
        Some(witnesses[0])
    } else {
        witness_with(witnesses.drop_first(), log)
    }
}

/// The jurisdictions that witnesses are licensed in.
pub open spec fn jurisdictions(witnesses: Seq<WitnessView>) -> Set<[u8; 2]>
    decreases witnesses.len(),
{
    if witnesses.len() == 0 {
        Set::empty()
    } else {
        jurisdictions(witnesses.drop_last()).insert(witnesses.last().country)
    }
}

/// Note a country in a list without repeats.
pub(crate) fn note_country(seen: &mut Vec<[u8; 2]>, country: [u8; 2])
    requires
        old(seen)@.no_duplicates(),
    ensures
        final(seen)@.no_duplicates(),
        final(seen)@.to_set() == old(seen)@.to_set().insert(country),
{
    let ghost before = seen@;
    let mut i: usize = 0;
    while i < seen.len()
        invariant
            i <= seen@.len(),
            before == seen@,
            before.no_duplicates(),
            forall|j: int| 0 <= j < i ==> seen@[j] != country,
        decreases seen@.len() - i,
    {
        if same_country(&seen[i], &country) {
            assert(before.contains(before[i as int]));
            assert(before.to_set().insert(country) =~= before.to_set());
            return;
        }
        i += 1;
    }
    seen.push(country);
    proof {
        lemma_push_to_set(before, country);
    }
}

/// Note a log in a list without repeats.
pub(crate) fn note_log(seen: &mut Vec<LogId>, log: LogId)
    requires
        old(seen)@.no_duplicates(),
    ensures
        final(seen)@.no_duplicates(),
        final(seen)@.to_set() == old(seen)@.to_set().insert(log),
{
    let ghost before = seen@;
    let mut i: usize = 0;
    while i < seen.len()
        invariant
            i <= seen@.len(),
            before == seen@,
            before.no_duplicates(),
            forall|j: int| 0 <= j < i ==> seen@[j] != log,
        decreases seen@.len() - i,
    {
        if seen[i] == log {
            assert(before.contains(before[i as int]));
            assert(before.to_set().insert(log) =~= before.to_set());
            return;
        }
        i += 1;
    }
    seen.push(log);
    proof {
        lemma_push_to_set(before, log);
    }
}

proof fn lemma_push_to_set<A>(s: Seq<A>, x: A)
    ensures
        s.push(x).to_set() == s.to_set().insert(x),
{
    let t = s.push(x);
    assert forall|y: A| #[trigger] t.to_set().contains(y) <==> s.to_set().insert(x).contains(y) by {
        if t.contains(y) {
            let k = choose|k: int| 0 <= k < t.len() && t[k] == y;
            if k < s.len() {
                assert(s[k] == y);
            }
        }
        if s.contains(y) {
            let k = choose|k: int| 0 <= k < s.len() && s[k] == y;
            assert(t[k] == y);
        }
        if y == x {
            assert(t[s.len() as int] == y);
        }
    }
    assert(t.to_set() =~= s.to_set().insert(x));
}

/// Why a claim that an entry is in a witness's log is not accepted, if it is not.
pub open spec fn observe_complaint(
    witnesses: Seq<WitnessView>,
    chain_id: Seq<char>,
    sth: SignedHeadView,
    index: u64,
    entry: LogEntry,
    proof_index: usize,
    proof_total: usize,
    siblings: Seq<Hash32>,
) -> Option<WitnessFault> {
    match witness_with(witnesses, sth.head.log) {
        None => Some(WitnessFault::UnknownWitness),
        Some(w) => if sth.complaint(w.key) is Some {
            sth.complaint(w.key)
        } else if sth.head.chain_id != chain_id {
            Some(WitnessFault::WrongChain { got: sth.head.chain_id, expected: chain_id })
        } else if proof_total != sth.head.size || proof_index != index {
            Some(
                WitnessFault::SizeMismatch { got: proof_total as u64, expected: sth.head.size },
            )
        } else if index >= sth.head.size || climbed(
            entry_leaf(entry),
            index as int,
            sth.head.size as nat,
            siblings,
        ) != Some(sth.head.root) {
            Some(WitnessFault::BadInclusionProof)
        } else {
            None
        },
    }
}

/// Why a witness has not shown that it kept what the wallet saw, if it has not.
pub open spec fn continuity_complaint(
    witnesses: Seq<WitnessView>,
    remembered: Remembered,
    sth: SignedHeadView,
    old_size: usize,
    new_size: usize,
    digests: Seq<Hash32>,
) -> Option<WitnessFault> {
    match witness_with(witnesses, sth.head.log) {
        None => Some(WitnessFault::UnknownWitness),
        Some(w) => if sth.complaint(w.key) is Some {
            sth.complaint(w.key)
        } else if sth.head.log != remembered.log {
            Some(WitnessFault::LogMismatch)
        } else if sth.head.size < remembered.size {
            Some(
                WitnessFault::SizeMismatch { got: sth.head.size, expected: remembered.size },
            )
        } else if old_size != remembered.size || new_size != sth.head.size {
            Some(
                WitnessFault::SizeMismatch { got: old_size as u64, expected: remembered.size },
            )
        } else if !grows(
            remembered.root,
            sth.head.root,
            remembered.size as nat,
            sth.head.size as nat,
            digests,
        ) {
            Some(WitnessFault::BadConsistencyProof)
        } else {
            None
        },
    }
}

impl WitnessSet {
    /// A set is not empty, and no operator is in it twice.
    #[verifier::type_invariant]
    pub open spec fn well_formed(self) -> bool {
        self@.len() > 0 && logs_distinct(self@)
    }

    /// Build a witness set.
    pub fn new(witnesses: Vec<Witness>) -> (r: Result<Self, WitnessError>)
        ensures
            ({
                let list = witnesses.deep_view();
                match r {
                    Ok(set) => list.len() > 0 && logs_distinct(list) && set@ == list,
                    Err(e) => if list.len() == 0 {
                        e == WitnessError::EmptyWitnessSet
                    } else {
                        !logs_distinct(list) && e == WitnessError::DuplicateWitness
                    },
                }
            }),
    {
        let ghost list = witnesses.deep_view();
        if witnesses.len() == 0 {
            return Err(WitnessError::EmptyWitnessSet);
        }
        let mut i: usize = 0;
        while i < witnesses.len()
            invariant
                i <= witnesses@.len(),
                0 < witnesses@.len(),
                list == witnesses.deep_view(),
                forall|j: int, k: int|
                    0 <= j < i && j < k < list.len() ==> (#[trigger] list[j]).log != (
                    #[trigger] list[k]).log,
            decreases witnesses@.len() - i,
        {
            let mut j: usize = i + 1;
            while j < witnesses.len()
                invariant
                    i < j <= witnesses@.len(),
                    list == witnesses.deep_view(),
                    forall|k: int| i < k < j ==> (#[trigger] list[k]).log != list[i as int].log,
                decreases witnesses@.len() - j,
            {
                assert(list[j as int] == witnesses@[j as int].deep_view());
                assert(list[i as int] == witnesses@[i as int].deep_view());
                if witnesses[j].log == witnesses[i].log {
                    assert(list[i as int].log == list[j as int].log);
                    return Err(WitnessError::DuplicateWitness);
                }
                j += 1;
            }
            i += 1;
        }
        Ok(WitnessSet { witnesses })
    }

    /// Look up a witness by log identifier.
    pub fn get(&self, log: &LogId) -> (w: Option<&Witness>)
        ensures
            match w {
                Some(w) => witness_with(self@, *log) == Some(w.deep_view()),
                None => witness_with(self@, *log) is None,
            },
    {
        let ghost list = self@;
        let mut i: usize = 0;
        assert(list.skip(0) =~= list);
        while i < self.witnesses.len()
            invariant
                i <= self.witnesses@.len(),
                list == self.witnesses.deep_view(),
                list == self@,
                witness_with(list, *log) == witness_with(list.skip(i as int), *log),
            decreases self.witnesses@.len() - i,
        {
            assert(list.skip(i as int)[0] == list[i as int]);
            assert(list.skip(i as int).drop_first() =~= list.skip(i as int + 1));
            if self.witnesses[i].log == *log {
                return Some(&self.witnesses[i]);
            }
            i += 1;
        }
        assert(list.skip(list.len() as int).len() == 0);
        None
    }

    /// How many witnesses are known.
    pub fn len(&self) -> (n: usize)
        ensures
            n == self@.len(),
    {
        self.witnesses.len()
    }

    /// Whether the set is empty. Never true for a constructed set.
    pub fn is_empty(&self) -> (b: bool)
        ensures
            !b,
    {
        proof {
            use_type_invariant(self);
        }
        self.witnesses.len() == 0
    }

    /// How many distinct jurisdictions are represented.
    pub fn countries(&self) -> (n: usize)
        ensures
            n == jurisdictions(self@).len(),
    {
        let ghost list = self@;
        let mut seen: Vec<[u8; 2]> = Vec::new();
        let mut i: usize = 0;
        assert(list.take(0) =~= Seq::empty());
        assert(seen@.to_set() =~= Set::empty());
        while i < self.witnesses.len()
            invariant
                i <= self.witnesses@.len(),
                list == self.witnesses.deep_view(),
                seen@.no_duplicates(),
                seen@.to_set() == jurisdictions(list.take(i as int)),
            decreases self.witnesses@.len() - i,
        {
            assert(list.take(i as int + 1).drop_last() =~= list.take(i as int));
            assert(list.take(i as int + 1).last() == list[i as int]);
            note_country(&mut seen, self.witnesses[i].country);
            i += 1;
        }
        assert(list.take(list.len() as int) =~= list);
        proof {
            seen@.unique_seq_to_set();
        }
        seen.len()
    }

    /// Verify a witness's claim that it recorded `entry` at `index`.
    ///
    /// In order: the witness is known; the head is genuinely signed by it; the head
    /// is for the chain we care about; the proof was built against the size the head
    /// commits to; and the entry is actually in the tree. The error names the first
    /// check that fails.
    pub fn observe(
        &self,
        chain_id: &ChainId,
        sth: &SignedTreeHead,
        index: u64,
        entry: &LogEntry,
        inclusion: &MerkleProof,
    ) -> (r: Result<Observation, WitnessError>)
        ensures
            match observe_complaint(
                self@,
                chain_id@,
                sth.deep_view(),
                index,
                *entry,
                inclusion.index,
                inclusion.total,
                inclusion.siblings@,
            ) {
                Some(f) => r matches Err(e) && e.deep_view() == f,
                None => r matches Ok(o) && o@ == (ObservationView {
                    log: sth.head.log,
                    country: witness_with(self@, sth.head.log)->0.country,
                    height: entry.height,
                    block_id: entry.block_id,
                    head_size: sth.head.size,
                    head_root: sth.head.root,
                    signed_at: sth.head.signed_at,
                }),
            },
    {
        proof {
            lemma_witness_with(self@, sth.head.log);
        }
        let witness = match self.get(&sth.head.log) {
            Some(w) => w,
            None => {
                return Err(WitnessError::UnknownWitness);
            },
        };
        match sth.verify(&witness.key) {
            Ok(()) => {},
            Err(e) => {
                return Err(e);
            },
        }
        if sth.head.chain_id != *chain_id {
            return Err(
                WitnessError::WrongChain {
                    got: sth.head.chain_id.to_string(),
                    expected: chain_id.to_string(),
                },
            );
        }
        // The proof must be against the tree the head committed to, at the index
        // claimed: a proof's own place and size are the prover's choice.
        let total: u64 = inclusion.total as u64;
        let at: u64 = inclusion.index as u64;
        if total != sth.head.size || at != index {
            return Err(WitnessError::SizeMismatch { got: total, expected: sth.head.size });
        }
        match inclusion.verify(sth.head.root, entry.leaf(), index as usize, inclusion.total) {
            Ok(()) => {},
            Err(_) => {
                return Err(WitnessError::BadInclusionProof);
            },
        }
        Ok(
            Observation {
                log: witness.log,
                country: witness.country,
                height: entry.height,
                block_id: entry.block_id,
                head_size: sth.head.size,
                head_root: sth.head.root,
                signed_at: sth.head.signed_at,
            },
        )
    }

    /// Verify that a witness's log still contains everything the wallet saw.
    ///
    /// This is the check that survives a long absence: either the hashes reconcile
    /// or they do not.
    pub fn check_continuity(
        &self,
        remembered: &Remembered,
        sth: &SignedTreeHead,
        growth: &ConsistencyProof,
    ) -> (r: Result<(), WitnessError>)
        ensures
            audited(r) == continuity_complaint(
                self@,
                *remembered,
                sth.deep_view(),
                growth.old_size,
                growth.new_size,
                growth.digests@,
            ),
    {
        let witness = match self.get(&sth.head.log) {
            Some(w) => w,
            None => {
                return Err(WitnessError::UnknownWitness);
            },
        };
        match sth.verify(&witness.key) {
            Ok(()) => {},
            Err(e) => {
                return Err(e);
            },
        }
        if sth.head.log != remembered.log {
            return Err(WitnessError::LogMismatch);
        }
        // A log may only grow. Shrinking is a rewrite by another name.
        if sth.head.size < remembered.size {
            return Err(
                WitnessError::SizeMismatch { got: sth.head.size, expected: remembered.size },
            );
        }
        let declared_old: u64 = growth.old_size as u64;
        let declared_new: u64 = growth.new_size as u64;
        if declared_old != remembered.size || declared_new != sth.head.size {
            return Err(
                WitnessError::SizeMismatch { got: declared_old, expected: remembered.size },
            );
        }
        match growth.verify(remembered.root, sth.head.root, growth.old_size, growth.new_size) {
            Ok(()) => Ok(()),
            Err(_) => Err(WitnessError::BadConsistencyProof),
        }
    }
}

proof fn lemma_witness_with(witnesses: Seq<WitnessView>, log: LogId)
    ensures
        witness_with(witnesses, log) matches Some(w) ==> w.log == log,
    decreases witnesses.len(),
{
    if witnesses.len() > 0 && witnesses[0].log != log {
        lemma_witness_with(witnesses.drop_first(), log);
    }
}

/// What a wallet keeps about one witness between sessions.
#[derive(Debug, Clone, Copy, PartialEq, Eq)]
pub struct Remembered {
    /// Which log.
    pub log: LogId,
    /// Its size when last seen.
    pub size: u64,
    /// Its root at that size.
    pub root: Hash32,
}

impl Remembered {
    /// Record a head the wallet has just verified.
    pub fn from_head(sth: &SignedTreeHead) -> (m: Self)
        ensures
            m == (Remembered { log: sth.head.log, size: sth.head.size, root: sth.head.root }),
    {
        Remembered { log: sth.head.log, size: sth.head.size, root: sth.head.root }
    }
}

/// A witness claim that has been checked.
#[derive(Debug, Clone, Copy, PartialEq, Eq)]
pub struct Observation {
    log: LogId,
    country: [u8; 2],
    height: Height,
    block_id: Hash32,
    head_size: u64,
    head_root: Hash32,
    signed_at: Timestamp,
}

/// The mathematical view of an [`Observation`].
pub struct ObservationView {
    pub log: LogId,
    pub country: [u8; 2],
    pub height: Height,
    pub block_id: Hash32,
    pub head_size: u64,
    pub head_root: Hash32,
    pub signed_at: Timestamp,
}

impl View for Observation {
    type V = ObservationView;

    closed spec fn view(&self) -> ObservationView {
        ObservationView {
            log: self.log,
            country: self.country,
            height: self.height,
            block_id: self.block_id,
            head_size: self.head_size,
            head_root: self.head_root,
            signed_at: self.signed_at,
        }
    }
}

impl Observation {
    /// Which witness said this.
    pub fn log(&self) -> (l: LogId)
        ensures
            l == self@.log,
    {
        self.log
    }

    /// The witness's jurisdiction.
    pub fn country(&self) -> (c: [u8; 2])
        ensures
            c == self@.country,
    {
        self.country
    }

    /// The height observed.
    pub fn height(&self) -> (h: Height)
        ensures
            h == self@.height,
    {
        self.height
    }

    /// The block the witness saw at that height.
    pub fn block_id(&self) -> (b: Hash32)
        ensures
            b == self@.block_id,
    {
        self.block_id
    }

    /// The head this observation was proved against, for the wallet to store.
    pub fn remembered(&self) -> (m: Remembered)
        ensures
            m == (Remembered {
                log: self@.log,
                size: self@.head_size,
                root: self@.head_root,
            }),
    {
        Remembered { log: self.log, size: self.head_size, root: self.head_root }
    }

    /// When the witness signed the head. Advisory: a witness's own clock is not
    /// evidence, and nothing in corroboration depends on it.
    pub fn signed_at(&self) -> (t: Timestamp)
        ensures
            t == self@.signed_at,
    {
        self.signed_at
    }
}

} // verus!
