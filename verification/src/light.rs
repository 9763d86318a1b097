//! Checking a server's answers against a header the client trusts.

use crate::chain::{header_id, BlockHeader, BlockHeaderView};
use crate::consensus::{CommitError, ValidatorSet, ValidatorView};
use crate::crypto::hash::Hash32;
use crate::primitives::ids::ChainId;
use crate::state::membership::{
    hashed_checking, hashed_in, law_entries_are_provable, law_entries_cannot_be_forged,
    proof_along, Proof, ProofView,
};
use crate::state::shape::{lookup, path, root_of, tree_of};
use crate::state::store::StoreKey;
use vstd::prelude::*;

verus! {

/// Why an answer was not believed.
#[derive(Debug, Clone, Copy, PartialEq, Eq, Structural)]
pub enum LightError {
    /// The commit or the proof is for another block.
    HeaderMismatch,
    /// The proof does not reconstruct the committed root.
    BadProof,
    /// The header is not the one of the block that was named.
    WrongBlock,
    /// A proved value does not decode.
    MalformedValue,
    /// The commit does not finalise the block.
    Commit(CommitError),
}

impl LightError {
    /// The sentence that describes this error.
    pub open spec fn text(self) -> Seq<char> {
        match self {
            LightError::HeaderMismatch => "the commit or the proof is for another block"@,
            LightError::BadProof => "the proof does not reconstruct the committed root"@,
            LightError::WrongBlock => "the header is not that of the named block"@,
            LightError::MalformedValue => "the proved value does not decode"@,
            LightError::Commit(e) => e.text(),
        }
    }

    /// The sentence that describes this error.
    pub fn to_string(&self) -> (s: String)
        ensures
            s@ == self.text(),
    {
        match self {
            LightError::HeaderMismatch => String::from_str(
                "the commit or the proof is for another block",
            ),
            LightError::BadProof => String::from_str(
                "the proof does not reconstruct the committed root",
            ),
            LightError::WrongBlock => String::from_str("the header is not that of the named block"),
            LightError::MalformedValue => String::from_str("the proved value does not decode"),
            LightError::Commit(e) => e.to_string(),
        }
    }
}

/// A client that trusts one header.
#[derive(Debug)]
pub struct LightClient {
    chain_id: ChainId,
    validators: ValidatorSet,
    header: BlockHeader,
}

impl LightClient {
    /// The network that the client follows.
    pub closed spec fn network(&self) -> Seq<char> {
        self.chain_id@
    }

    /// The validators that the client knows.
    pub closed spec fn known_validators(&self) -> Seq<ValidatorView> {
        self.validators@
    }

    /// The header that the client trusts.
    pub closed spec fn trusted(&self) -> BlockHeaderView {
        self.header.deep_view()
    }

    /// Start from a trusted header.
    pub fn new(chain_id: ChainId, validators: ValidatorSet, header: BlockHeader) -> (c: Self)
        ensures
            c.network() == chain_id@,
            c.known_validators() == validators@,
            c.trusted() == header.deep_view(),
    {
        LightClient { chain_id, validators, header }
    }

    /// Start from a block identifier, with a header that anybody may have handed over.
    pub fn from_block_id(
        chain_id: ChainId,
        block_id: Hash32,
        header: BlockHeader,
        validators: ValidatorSet,
    ) -> (r: Result<Self, LightError>)
        ensures
            if header_id(header.deep_view()) == block_id {
                r matches Ok(c) && c.network() == chain_id@ && c.known_validators() == validators@
                    && c.trusted() == header.deep_view()
            } else {
                r matches Err(e) && e == LightError::WrongBlock
            },
    {
        if !header.id().same(&block_id) {
            return Err(LightError::WrongBlock);
        }
        Ok(LightClient::new(chain_id, validators, header))
    }

    /// The network that the client follows.
    pub fn chain_id(&self) -> (c: &ChainId)
        ensures
            c@ == self.network(),
    {
        &self.chain_id
    }

    /// The validators that the client knows.
    pub fn validators(&self) -> (v: &ValidatorSet)
        ensures
            v@ == self.known_validators(),
    {
        &self.validators
    }

    /// The header that the client trusts.
    pub fn header(&self) -> (h: &BlockHeader)
        ensures
            h.deep_view() == self.trusted(),
    {
        &self.header
    }

    /// Check that the state behind the trusted header holds a value, or nothing, under
    /// a key.
    pub fn verify_value(&self, key: &StoreKey, value: Option<&[u8]>, proof_of: &Proof) -> (r:
        Result<(), LightError>)
        ensures
            r == if proof_of.deep_view().shows(self.trusted().app_hash, key@, value.deep_view()) {
                Ok::<(), LightError>(())
            } else {
                Err(LightError::BadProof)
            },
    {
        if proof_of.verify(self.header.app_hash, key.as_bytes(), value) {
            Ok(())
        } else {
            Err(LightError::BadProof)
        }
    }
}

/// A node that reads a value and its proof from the state behind a header always
/// convinces a client that trusts the header.
pub proof fn law_honest_answers_verify(
    entries: Map<Hash32, Seq<u8>>,
    header: BlockHeaderView,
    key: Seq<u8>,
)
    requires
        entries.dom().finite(),
        header.app_hash == root_of(entries),
    ensures
        proof_along(tree_of(entries), path(key)).shows(
            header.app_hash,
            key,
            lookup(entries, path(key)),
        ),
{
    law_entries_are_provable(entries, key);
}

/// A client that trusts a header is never convinced of anything but what the state
/// behind the header holds, neither a value that is not there nor an absence of one
/// that is, unless hashes clash.
pub proof fn law_false_answers_do_not_verify(
    entries: Map<Hash32, Seq<u8>>,
    header: BlockHeaderView,
    p: ProofView,
    key: Seq<u8>,
    claim: Option<Seq<u8>>,
)
    requires
        entries.dom().finite(),
        header.app_hash == root_of(entries),
        claim != lookup(entries, path(key)),
        crate::crypto::hash::clash_free(
            hashed_in(tree_of(entries)).union(hashed_checking(p, path(key))),
        ),
    ensures
        !p.shows(header.app_hash, key, claim),
{
    if p.shows(header.app_hash, key, claim) {
        law_entries_cannot_be_forged(entries, p, key, claim);
    }
}

} // verus!
