//! Domain-separated BLAKE3 hashing.
//!
//! Every hash is taken in a [`Domain`], so that a digest made for one purpose can
//! never be presented as a digest made for another.

use crate::primitives::codec::{
    parse_take, Canonical, CodecError, Decode, Encode, Parsed, Reader,
};
use crate::primitives::text;
use crate::primitives::wire;
use vstd::prelude::*;

verus! {

/// The 32 bytes that BLAKE3's key-derivation mode gives for a context string and
/// some material.
pub uninterp spec fn derived_key(context: Seq<char>, material: Seq<u8>) -> [u8; 32];

/// Calls `blake3::derive_key`, under the name [`derived_key`].
#[verifier::external_body]
fn blake3_derive_key(context: &str, material: &[u8]) -> (digest: [u8; 32])
    ensures
        digest == derived_key(context@, material@),
{
    blake3::derive_key(context, material)
}

/// What a digest is made for.
#[derive(Debug, Clone, Copy, PartialEq, Eq, Structural)]
pub enum Domain {
    /// An account address.
    Address,
    /// The address of a protocol module.
    ModuleAddress,
    /// Keys, values and leaves of the state tree.
    StateLeaf,
    /// Branches of the state tree.
    StateNode,
    /// A transaction's identifier.
    TxId,
    /// What a transaction's signatures commit to.
    TxSignDoc,
    /// What a consensus vote's signature commits to.
    VoteSignDoc,
    /// A validator set.
    ValidatorSet,
    /// A block header's identifier.
    BlockHeader,
    /// Leaves of an ordered Merkle tree.
    MerkleLeaf,
    /// Branches of an ordered Merkle tree.
    MerkleNode,
    /// A witness log's identifier.
    WitnessLogId,
    /// An entry of a witness log.
    WitnessEntry,
    /// What a tree head's signature commits to.
    TreeHeadSignDoc,
}

impl Domain {
    /// The context string that separates this domain from the others.
    pub open spec fn text(self) -> Seq<char> {
        match self {
            Domain::Address => "afrolink/address"@,
            Domain::ModuleAddress => "afrolink/module-address"@,
            Domain::StateLeaf => "afrolink/state-leaf"@,
            Domain::StateNode => "afrolink/state-node"@,
            Domain::TxId => "afrolink/tx-id"@,
            Domain::TxSignDoc => "afrolink/tx-sign-doc"@,
            Domain::VoteSignDoc => "afrolink/vote-sign-doc"@,
            Domain::ValidatorSet => "afrolink/validator-set"@,
            Domain::BlockHeader => "afrolink/block-header"@,
            Domain::MerkleLeaf => "afrolink/merkle-leaf"@,
            Domain::MerkleNode => "afrolink/merkle-node"@,
            Domain::WitnessLogId => "afrolink/witness-log-id"@,
            Domain::WitnessEntry => "afrolink/witness-entry"@,
            Domain::TreeHeadSignDoc => "afrolink/tree-head-sign-doc"@,
        }
    }

    fn context(self) -> (s: &'static str)
        ensures
            s@ == self.text(),
    {
        match self {
            Domain::Address => "afrolink/address",
            Domain::ModuleAddress => "afrolink/module-address",
            Domain::StateLeaf => "afrolink/state-leaf",
            Domain::StateNode => "afrolink/state-node",
            Domain::TxId => "afrolink/tx-id",
            Domain::TxSignDoc => "afrolink/tx-sign-doc",
            Domain::VoteSignDoc => "afrolink/vote-sign-doc",
            Domain::ValidatorSet => "afrolink/validator-set",
            Domain::BlockHeader => "afrolink/block-header",
            Domain::MerkleLeaf => "afrolink/merkle-leaf",
            Domain::MerkleNode => "afrolink/merkle-node",
            Domain::WitnessLogId => "afrolink/witness-log-id",
            Domain::WitnessEntry => "afrolink/witness-entry",
            Domain::TreeHeadSignDoc => "afrolink/tree-head-sign-doc",
        }
    }
}

/// A 32-byte digest.
#[derive(Debug, Clone, Copy, PartialEq, Eq, PartialOrd, Ord, Hash)]
pub struct Hash32(pub [u8; 32]);

/// The digest of some bytes in a domain.
pub open spec fn digest(domain: Domain, bytes: Seq<u8>) -> Hash32 {
    Hash32(derived_key(domain.text(), bytes))
}

/// Two digests with the same bytes are the same digest.
pub proof fn lemma_hash_bytes_determine(a: Hash32, b: Hash32)
    requires
        a.0@ == b.0@,
    ensures
        a == b,
{
    assert(a.0 =~= b.0);
}

/// Hash some bytes in a domain.
pub fn hash(domain: Domain, bytes: &[u8]) -> (h: Hash32)
    ensures
        h == digest(domain, bytes@),
{
    Hash32(blake3_derive_key(domain.context(), bytes))
}

/// Hash two byte strings, one after the other, in a domain.
pub fn hash_parts(domain: Domain, first: &[u8], second: &[u8]) -> (h: Hash32)
    ensures
        h == digest(domain, first@ + second@),
{
    let mut joined: Vec<u8> = Vec::new();
    wire::push_bytes(&mut joined, first);
    wire::push_bytes(&mut joined, second);
    assert(joined@ =~= first@ + second@);
    hash(domain, &joined)
}

/// A bit of a byte, the most significant first.
pub open spec fn byte_bit(b: u8, i: int) -> bool {
    if i == 0 {
        b & 128 != 0
    } else if i == 1 {
        b & 64 != 0
    } else if i == 2 {
        b & 32 != 0
    } else if i == 3 {
        b & 16 != 0
    } else if i == 4 {
        b & 8 != 0
    } else if i == 5 {
        b & 4 != 0
    } else if i == 6 {
        b & 2 != 0
    } else {
        b & 1 != 0
    }
}

impl Hash32 {
    /// Whether two digests are the same.
    pub fn same(&self, other: &Hash32) -> (b: bool)
        ensures
            b == (*self == *other),
    {
        let same = text::same_bytes(&self.0, &other.0);
        proof {
            if same {
                lemma_hash_bytes_determine(*self, *other);
            }
        }
        same
    }

    /// Bit `i` of the digest, counted from the most significant bit of the first
    /// byte.
    pub open spec fn bit_at(self, i: int) -> bool {
        byte_bit(self.0@[i / 8], i % 8)
    }

    /// The digest of all zero bytes.
    pub open spec fn all_zero() -> Hash32 {
        Hash32(wire::zeros::<32>())
    }

    /// The digest of all zero bytes.
    pub fn zero() -> (h: Self)
        ensures
            h == Self::all_zero(),
    {
        Hash32([0u8;32])
    }

    /// Wrap raw bytes.
    pub fn from_bytes(bytes: [u8; 32]) -> (h: Self)
        ensures
            h.0 == bytes,
    {
        Hash32(bytes)
    }

    /// The raw bytes.
    pub fn as_bytes(&self) -> (b: &[u8; 32])
        ensures
            *b == self.0,
    {
        &self.0
    }

    /// Bit `i` of the digest, counted from the most significant bit of the first
    /// byte.
    pub fn bit(&self, i: usize) -> (b: bool)
        requires
            i < 256,
        ensures
            b == self.bit_at(i as int),
    {
        let byte: u8 = self.0[i / 8];
        match i % 8 {
            0 => byte & 128 != 0,
            1 => byte & 64 != 0,
            2 => byte & 32 != 0,
            3 => byte & 16 != 0,
            4 => byte & 8 != 0,
            5 => byte & 4 != 0,
            6 => byte & 2 != 0,
            _ => byte & 1 != 0,
        }
    }

    /// The digest in lowercase hexadecimal.
    pub fn to_hex(&self) -> (s: String)
        ensures
            s@ == text::hex(self.0@),
    {
        text::hex_text(&self.0)
    }
}

/// A byte is determined by its bits.
pub proof fn lemma_bits_determine_byte(a: u8, b: u8)
    requires
        forall|i: int| 0 <= i < 8 ==> byte_bit(a, i) == byte_bit(b, i),
    ensures
        a == b,
{
    assert(byte_bit(a, 0) == byte_bit(b, 0));
    assert(byte_bit(a, 1) == byte_bit(b, 1));
    assert(byte_bit(a, 2) == byte_bit(b, 2));
    assert(byte_bit(a, 3) == byte_bit(b, 3));
    assert(byte_bit(a, 4) == byte_bit(b, 4));
    assert(byte_bit(a, 5) == byte_bit(b, 5));
    assert(byte_bit(a, 6) == byte_bit(b, 6));
    assert(byte_bit(a, 7) == byte_bit(b, 7));
    assert(a == b) by (bit_vector)
        requires
            (a & 128 != 0) == (b & 128 != 0),
            (a & 64 != 0) == (b & 64 != 0),
            (a & 32 != 0) == (b & 32 != 0),
            (a & 16 != 0) == (b & 16 != 0),
            (a & 8 != 0) == (b & 8 != 0),
            (a & 4 != 0) == (b & 4 != 0),
            (a & 2 != 0) == (b & 2 != 0),
            (a & 1 != 0) == (b & 1 != 0),
    ;
}

/// A digest is determined by its 256 bits.
pub proof fn lemma_bits_determine_hash(a: Hash32, b: Hash32)
    requires
        forall|i: int| 0 <= i < 256 ==> #[trigger] a.bit_at(i) == b.bit_at(i),
    ensures
        a == b,
{
    assert forall|k: int| 0 <= k < 32 implies a.0@[k] == b.0@[k] by {
        assert forall|i: int| 0 <= i < 8 implies byte_bit(a.0@[k], i) == byte_bit(
            b.0@[k],
            i,
        ) by {
            assert(a.bit_at(8 * k + i) == b.bit_at(8 * k + i));
        }
        lemma_bits_determine_byte(a.0@[k], b.0@[k]);
    }
    assert(a.0 =~= b.0);
}

/// Something that was hashed.
pub struct Preimage {
    pub domain: Domain,
    pub bytes: Seq<u8>,
}

impl Preimage {
    /// The digest it was hashed to.
    pub open spec fn hash(self) -> Hash32 {
        digest(self.domain, self.bytes)
    }
}

/// Whether no two of the given preimages share a digest, and none has the digest
/// of all zero bytes. Soundness of a hash-based proof rests on this, and on this
/// alone.
pub open spec fn clash_free(hashed: Set<Preimage>) -> bool {
    &&& forall|x: Preimage, y: Preimage|
        #![trigger hashed.contains(x), hashed.contains(y)]
        hashed.contains(x) && hashed.contains(y) && x.hash() == y.hash() ==> x == y
    &&& forall|x: Preimage| #[trigger] hashed.contains(x) ==> x.hash() != Hash32::all_zero()
}

impl DeepView for Hash32 {
    type V = Hash32;

    open spec fn deep_view(&self) -> Hash32 {
        *self
    }
}

/// The digest with the given bytes, of which there are 32.
pub open spec fn hash_of_bytes(bytes: Seq<u8>) -> Hash32 {
    Hash32(wire::array_of::<32>(bytes))
}

impl Encode for Hash32 {
    open spec fn bytes_of(v: Hash32) -> Seq<u8> {
        v.0@
    }

    fn encode(&self, out: &mut Vec<u8>) {
        wire::push_bytes(out, &self.0);
    }
}

impl Decode for Hash32 {
    open spec fn parse(s: Seq<u8>) -> Parsed<Hash32> {
        parse_take(32, s).map(|bytes: Seq<u8>| hash_of_bytes(bytes))
    }

    fn decode(r: &mut Reader<'_>) -> (res: Result<Self, CodecError>) {
        let bytes = r.take_array::<32>()?;
        let h = Hash32(bytes);
        proof {
            lemma_hash_of_bytes(bytes@);
            lemma_hash_bytes_determine(h, hash_of_bytes(bytes@));
        }
        Ok(h)
    }
}

/// There is a digest for every 32 bytes.
pub proof fn lemma_hash_of_bytes(bytes: Seq<u8>)
    requires
        bytes.len() == 32,
    ensures
        hash_of_bytes(bytes).0@ == bytes,
{
    wire::lemma_array_of::<32>(bytes);
}

impl Canonical for Hash32 {
    open spec fn valid(v: Hash32) -> bool {
        true
    }

    proof fn round_trip(v: Hash32, tail: Seq<u8>) {
        wire::lemma_split_concat(v.0@, tail);
        lemma_hash_of_bytes(v.0@);
        lemma_hash_bytes_determine(v, hash_of_bytes(v.0@));
    }

    proof fn one_encoding(s: Seq<u8>) {
        if 32 <= s.len() {
            assert(s =~= s.take(32) + s.skip(32));
            lemma_hash_of_bytes(s.take(32));
        }
    }
}

} // verus!
