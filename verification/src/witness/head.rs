//! Log identifiers, signed tree heads, and the proof that a witness lied.

use crate::crypto::hash::{digest, hash, Domain, Hash32};
use crate::crypto::keys::{signature_of, signed_by, PublicKey, SecretKey, Signature};
use crate::primitives::codec::{Canonical, CodecError, Decode, Encode, Parsed, Reader};
use crate::primitives::ids::{ChainId, Timestamp};
use crate::primitives::wire;
use crate::witness::error::{audited, WitnessError, WitnessFault};
use vstd::prelude::*;

verus! {

/// A witness log's identifier, derived from its public key: claiming an identifier
/// requires holding the key that produces it.
#[derive(Debug, Clone, Copy, Eq, PartialOrd, Ord, Hash)]
pub struct LogId(Hash32);

impl View for LogId {
    type V = Hash32;

    closed spec fn view(&self) -> Hash32 {
        self.0
    }
}

/// The identifier with a digest.
pub closed spec fn log_named(h: Hash32) -> LogId {
    LogId(h)
}

/// An identifier is its digest and nothing else: each determines the other.
pub proof fn law_an_identifier_is_its_digest(h: Hash32, id: LogId)
    ensures
        log_named(h)@ == h,
        log_named(id@) == id,
{
}

impl PartialEq for LogId {
    fn eq(&self, other: &Self) -> (r: bool) {
        self.0.same(&other.0)
    }
}

impl vstd::std_specs::cmp::PartialEqSpecImpl for LogId {
    open spec fn obeys_eq_spec() -> bool {
        true
    }

    open spec fn eq_spec(&self, other: &Self) -> bool {
        *self == *other
    }
}

impl DeepView for LogId {
    type V = LogId;

    open spec fn deep_view(&self) -> LogId {
        *self
    }
}

/// The identifier of the log that a key signs.
pub open spec fn log_of(key: Seq<u8>) -> LogId {
    log_named(digest(Domain::WitnessLogId, key))
}

impl LogId {
    /// The identifier of the log signed by `key`.
    pub fn from_public_key(key: &PublicKey) -> (id: Self)
        ensures
            id == log_of(key@),
    {
        LogId(hash(Domain::WitnessLogId, key.as_bytes()))
    }

    /// The raw digest.
    pub fn as_hash(&self) -> (h: &Hash32)
        ensures
            *h == self@,
    {
        &self.0
    }
}

/// A witness's public claim: "my log has `size` entries and this root".
#[derive(Debug, Clone, PartialEq, Eq)]
pub struct TreeHead {
    /// Which log this describes.
    pub log: LogId,
    /// Which chain the log observes.
    pub chain_id: ChainId,
    /// Number of entries committed.
    pub size: u64,
    /// Merkle root over those entries.
    pub root: Hash32,
    /// When the witness signed. Advisory: it is the witness's own clock.
    pub signed_at: Timestamp,
}

/// The mathematical view of a [`TreeHead`].
pub struct HeadView {
    pub log: LogId,
    pub chain_id: Seq<char>,
    pub size: u64,
    pub root: Hash32,
    pub signed_at: Timestamp,
}

impl DeepView for TreeHead {
    type V = HeadView;

    open spec fn deep_view(&self) -> HeadView {
        HeadView {
            log: self.log.deep_view(),
            chain_id: self.chain_id.deep_view(),
            size: self.size.deep_view(),
            root: self.root.deep_view(),
            signed_at: self.signed_at.deep_view(),
        }
    }
}

impl HeadView {
    /// The bytes a signature commits to.
    pub open spec fn document(self) -> Seq<u8> {
        TreeHead::bytes_of(self)
    }
}

impl TreeHead {
    /// The bytes a signature commits to.
    pub fn sign_doc(&self) -> (doc: Vec<u8>)
        ensures
            doc@ == self.deep_view().document(),
    {
        self.to_bytes()
    }

    /// Sign this head.
    pub fn sign(&self, key: &SecretKey) -> (s: SignedTreeHead)
        ensures
            s.head == *self,
            s.signature.0 == signature_of(
                key@,
                digest(Domain::TreeHeadSignDoc, self.deep_view().document()).0@,
            ),
    {
        let doc = self.sign_doc();
        let signature = key.sign(Domain::TreeHeadSignDoc, doc.as_slice());
        let head = TreeHead {
            log: self.log,
            chain_id: self.chain_id.clone(),
            size: self.size,
            root: self.root,
            signed_at: self.signed_at,
        };
        SignedTreeHead { head, signature }
    }
}

/// A [`TreeHead`] with the witness's signature over it.
#[derive(Debug, Clone, PartialEq, Eq)]
pub struct SignedTreeHead {
    /// The claim.
    pub head: TreeHead,
    /// The witness's signature.
    pub signature: Signature,
}

/// The mathematical view of a [`SignedTreeHead`].
pub struct SignedHeadView {
    pub head: HeadView,
    pub signature: Signature,
}

impl DeepView for SignedTreeHead {
    type V = SignedHeadView;

    open spec fn deep_view(&self) -> SignedHeadView {
        SignedHeadView {
            head: self.head.deep_view(),
            signature: self.signature.deep_view(),
        }
    }
}

impl SignedHeadView {
    /// Why a head is not one by the witness with a key, if it is not.
    pub open spec fn complaint(self, key: Seq<u8>) -> Option<WitnessFault> {
        if log_of(key) != self.head.log {
            Some(WitnessFault::LogMismatch)
        } else if !signed_by(key, Domain::TreeHeadSignDoc, self.head.document(), self.signature) {
            Some(WitnessFault::BadSignature)
        } else {
            None
        }
    }
}

impl SignedTreeHead {
    /// Check the signature, and that `key` is the key this log is named after.
    pub fn verify(&self, key: &PublicKey) -> (r: Result<(), WitnessError>)
        ensures
            audited(r) == self.deep_view().complaint(key@),
    {
        if LogId::from_public_key(key) != self.head.log {
            return Err(WitnessError::LogMismatch);
        }
        let doc = self.head.sign_doc();
        match key.verify(Domain::TreeHeadSignDoc, doc.as_slice(), &self.signature) {
            Ok(()) => Ok(()),
            Err(_) => Err(WitnessError::BadSignature),
        }
    }
}

/// Two signed heads that prove one witness published conflicting history: the self-contained proof
/// of misbehaviour, checkable offline.
#[derive(Debug, Clone, PartialEq, Eq)]
pub struct Equivocation {
    /// One signed head.
    pub a: SignedTreeHead,
    /// The other, at the same size with a different root.
    pub b: SignedTreeHead,
}

/// The mathematical view of a [`Equivocation`].
pub struct ConflictView {
    pub a: SignedHeadView,
    pub b: SignedHeadView,
}

impl DeepView for Equivocation {
    type V = ConflictView;

    open spec fn deep_view(&self) -> ConflictView {
        ConflictView {
            a: self.a.deep_view(),
            b: self.b.deep_view(),
        }
    }
}

impl ConflictView {
    /// Why two heads are no proof of equivocation by the witness with a key, if they
    /// are not. The proof is two genuine heads of one log at one size with different
    /// roots: no honest log can sign both.
    pub open spec fn complaint(self, key: Seq<u8>) -> Option<WitnessFault> {
        if self.a.complaint(key) is Some {
            self.a.complaint(key)
        } else if self.b.complaint(key) is Some {
            self.b.complaint(key)
        } else if self.a.head.size != self.b.head.size || self.a.head.root == self.b.head.root {
            Some(WitnessFault::NotEquivocation)
        } else {
            None
        }
    }
}

impl Equivocation {
    /// Check that this really is proof of equivocation by `key`.
    pub fn check(&self, key: &PublicKey) -> (r: Result<(), WitnessError>)
        ensures
            audited(r) == self.deep_view().complaint(key@),
    {
        match self.a.verify(key) {
            Ok(()) => {},
            Err(e) => {
                return Err(e);
            },
        }
        match self.b.verify(key) {
            Ok(()) => {},
            Err(e) => {
                return Err(e);
            },
        }
        if self.a.head.log != self.b.head.log {
            return Err(WitnessError::LogMismatch);
        }
        if self.a.head.size != self.b.head.size || self.a.head.root.same(
            &self.b.head.root,
        ) {
            return Err(WitnessError::NotEquivocation);
        }
        Ok(())
    }
}

/// Equivocation by one witness cannot be pinned on another: evidence counts only
/// against keys that both of its heads are named after.
pub proof fn law_evidence_names_its_author(e: ConflictView, key: Seq<u8>)
    requires
        e.complaint(key) is None,
    ensures
        log_of(key) == e.a.head.log,
        log_of(key) == e.b.head.log,
        e.a.head.root != e.b.head.root,
        e.a.head.size == e.b.head.size,
{
}

/// Growing a log, or publishing one head twice, is never evidence.
pub proof fn law_honest_heads_are_no_evidence(e: ConflictView, key: Seq<u8>)
    requires
        e.a.head.size != e.b.head.size || e.a.head.root == e.b.head.root,
    ensures
        e.complaint(key) is Some,
{
}

impl Encode for LogId {
    open spec fn bytes_of(v: LogId) -> Seq<u8> {
        Hash32::bytes_of(v@)
    }

    fn encode(&self, out: &mut Vec<u8>) {
        self.0.encode(out);
    }
}

impl Decode for LogId {
    open spec fn parse(s: Seq<u8>) -> Parsed<LogId> {
        Hash32::parse(s).map(|h: Hash32| log_named(h))
    }

    fn decode(r: &mut Reader<'_>) -> (res: Result<Self, CodecError>) {
        Ok(LogId(Hash32::decode(r)?))
    }
}

impl Canonical for LogId {
    open spec fn valid(v: LogId) -> bool {
        true
    }

    proof fn round_trip(v: LogId, tail: Seq<u8>) {
        Hash32::round_trip(v.0, tail);
    }

    proof fn one_encoding(s: Seq<u8>) {
        Hash32::one_encoding(s);
    }
}

impl Encode for TreeHead {
    open spec fn bytes_of(v: HeadView) -> Seq<u8> {
        <(LogId, (ChainId, (u64, (Hash32, Timestamp))))>::bytes_of(
            (v.log, (v.chain_id, (v.size, (v.root, v.signed_at))))
        )
    }

    fn encode(&self, out: &mut Vec<u8>) {
        broadcast use wire::lemma_concat_assoc;

        self.log.encode(out);
        self.chain_id.encode(out);
        self.size.encode(out);
        self.root.encode(out);
        self.signed_at.encode(out);
    }
}

impl Decode for TreeHead {
    open spec fn parse(s: Seq<u8>) -> Parsed<HeadView> {
        <(LogId, (ChainId, (u64, (Hash32, Timestamp))))>::parse(s).map(
            |t: (LogId, (Seq<char>, (u64, (Hash32, Timestamp))))|
                HeadView {
                    log: t.0,
                    chain_id: t.1.0,
                    size: t.1.1.0,
                    root: t.1.1.1.0,
                    signed_at: t.1.1.1.1,
                },
        )
    }

    fn decode(r: &mut Reader<'_>) -> (res: Result<Self, CodecError>) {
        let log = LogId::decode(r)?;
        let chain_id = ChainId::decode(r)?;
        let size: u64 = u64::decode(r)?;
        let root = Hash32::decode(r)?;
        let signed_at = Timestamp::decode(r)?;
        Ok(TreeHead { log, chain_id, size, root, signed_at })
    }
}

impl Canonical for TreeHead {
    open spec fn valid(v: HeadView) -> bool {
        <(LogId, (ChainId, (u64, (Hash32, Timestamp))))>::valid(
            (v.log, (v.chain_id, (v.size, (v.root, v.signed_at))))
        )
    }

    proof fn round_trip(v: HeadView, tail: Seq<u8>) {
        <(LogId, (ChainId, (u64, (Hash32, Timestamp))))>::round_trip(
            (v.log, (v.chain_id, (v.size, (v.root, v.signed_at)))),
            tail,
        );
    }

    proof fn one_encoding(s: Seq<u8>) {
        <(LogId, (ChainId, (u64, (Hash32, Timestamp))))>::one_encoding(s);
    }
}

impl Encode for SignedTreeHead {
    open spec fn bytes_of(v: SignedHeadView) -> Seq<u8> {
        <(TreeHead, Signature)>::bytes_of((v.head, v.signature))
    }

    fn encode(&self, out: &mut Vec<u8>) {
        broadcast use wire::lemma_concat_assoc;

        self.head.encode(out);
        self.signature.encode(out);
    }
}

impl Decode for SignedTreeHead {
    open spec fn parse(s: Seq<u8>) -> Parsed<SignedHeadView> {
        <(TreeHead, Signature)>::parse(s).map(
            |t: (HeadView, Signature)|
                SignedHeadView { head: t.0, signature: t.1 },
        )
    }

    fn decode(r: &mut Reader<'_>) -> (res: Result<Self, CodecError>) {
        let head = TreeHead::decode(r)?;
        let signature = Signature::decode(r)?;
        Ok(SignedTreeHead { head, signature })
    }
}

impl Canonical for SignedTreeHead {
    open spec fn valid(v: SignedHeadView) -> bool {
        <(TreeHead, Signature)>::valid((v.head, v.signature))
    }

    proof fn round_trip(v: SignedHeadView, tail: Seq<u8>) {
        <(TreeHead, Signature)>::round_trip((v.head, v.signature), tail);
    }

    proof fn one_encoding(s: Seq<u8>) {
        <(TreeHead, Signature)>::one_encoding(s);
    }
}

} // verus!
