//! The keyspace layout and the storage trait modules are written against.
//!
//! Keys are namespaced by a single-byte prefix so that modules cannot collide. The
//! prefix is part of consensus: changing it changes every state root.

use crate::crypto::address::Address;
use crate::crypto::hash::Hash32;
use crate::primitives::codec::{decode_exact, parse_exact, Decode, Encode};
use crate::primitives::denom::Denom;
use crate::primitives::text;
use crate::primitives::wire;
use crate::state::membership::{proof_along, Proof};
use crate::state::shape::{lookup, path, root_of, tree_of};
use crate::state::smt::SparseMerkleTree;
use vstd::prelude::*;
use vstd::utf8::encode_utf8;

verus! {

/// Errors from state access.
#[derive(Debug, Clone, PartialEq, Eq)]
pub enum StateError {
    /// A stored value did not decode, meaning the database is corrupt or was
    /// written by an incompatible version.
    Corrupt {
        /// Hex of the offending key.
        key: String,
        /// Decoder message.
        reason: String,
    },
}

/// The mathematical view of a [`StateError`].
pub enum StateFault {
    Corrupt { key: Seq<char>, reason: Seq<char> },
}

impl DeepView for StateError {
    type V = StateFault;

    open spec fn deep_view(&self) -> StateFault {
        match *self {
            StateError::Corrupt { key, reason } => StateFault::Corrupt {
                key: key@,
                reason: reason@,
            },
        }
    }
}

impl StateFault {
    /// The sentence that describes this error.
    pub open spec fn text(self) -> Seq<char> {
        match self {
            StateFault::Corrupt { key, reason } => "corrupt state at key "@ + key + ": "@ + reason,
        }
    }
}

impl StateError {
    /// The sentence that describes this error.
    pub fn to_string(&self) -> (s: String)
        ensures
            s@ == self.deep_view().text(),
    {
        match self {
            StateError::Corrupt { key, reason } => {
                let mut out = String::from_str("corrupt state at key ");
                out.append(key.as_str());
                out.append(": ");
                out.append(reason.as_str());
                out
            },
        }
    }
}

/// Namespace prefixes. Never reuse or renumber a byte.
#[derive(Debug, Clone, Copy, PartialEq, Eq, Structural)]
pub enum Namespace {
    /// Account metadata.
    Account,
    /// Token balances, keyed by (address, denom).
    Balance,
    /// Total supply per denom.
    Supply,
    /// Sovereign stablecoin issuer registry.
    Issuer,
    /// Validator records.
    Validator,
    /// Delegation records, keyed by (delegator, validator).
    Delegation,
    /// Governance parameters.
    Params,
    /// Smart-contract code and instance storage.
    Contract,
    /// Accounts frozen by a sovereign issuer, keyed by (denom, address).
    ///
    /// Scoped to a single denom on purpose: an issuer may freeze its own stablecoin
    /// for an account and can never touch anything else that account holds.
    Frozen,
    /// Usernames, keyed by name.
    Alias,
    /// Contact commitments, keyed by commitment.
    Contact,
    /// The username of an account, keyed by address.
    AliasReverse,
    /// Unbonding queues, keyed by operator.
    Unbonding,
}

impl Namespace {
    /// The byte that every key of this namespace starts with.
    pub open spec fn prefix(self) -> u8 {
        match self {
            Namespace::Account => 0x01,
            Namespace::Balance => 0x02,
            Namespace::Supply => 0x03,
            Namespace::Issuer => 0x04,
            Namespace::Validator => 0x05,
            Namespace::Delegation => 0x06,
            Namespace::Params => 0x07,
            Namespace::Contract => 0x08,
            Namespace::Frozen => 0x09,
            Namespace::Alias => 0x0a,
            Namespace::Contact => 0x0b,
            Namespace::AliasReverse => 0x0c,
            Namespace::Unbonding => 0x0d,
        }
    }

    /// The byte that every key of this namespace starts with.
    pub fn byte(self) -> (b: u8)
        ensures
            b == self.prefix(),
    {
        match self {
            Namespace::Account => 0x01,
            Namespace::Balance => 0x02,
            Namespace::Supply => 0x03,
            Namespace::Issuer => 0x04,
            Namespace::Validator => 0x05,
            Namespace::Delegation => 0x06,
            Namespace::Params => 0x07,
            Namespace::Contract => 0x08,
            Namespace::Frozen => 0x09,
            Namespace::Alias => 0x0a,
            Namespace::Contact => 0x0b,
            Namespace::AliasReverse => 0x0c,
            Namespace::Unbonding => 0x0d,
        }
    }
}

/// A namespaced state key.
#[derive(Debug, Eq, PartialOrd, Ord, Hash)]
pub struct StoreKey(Vec<u8>);

impl View for StoreKey {
    type V = Seq<u8>;

    closed spec fn view(&self) -> Seq<u8> {
        self.0@
    }
}

impl Clone for StoreKey {
    fn clone(&self) -> (r: Self)
        ensures
            r@ == self@,
    {
        let copy = self.0.clone();
        assert(copy@ =~= self.0@);
        StoreKey(copy)
    }
}

impl PartialEq for StoreKey {
    fn eq(&self, other: &Self) -> (r: bool) {
        text::same_bytes(self.0.as_slice(), other.0.as_slice())
    }
}

impl vstd::std_specs::cmp::PartialEqSpecImpl for StoreKey {
    open spec fn obeys_eq_spec() -> bool {
        true
    }

    open spec fn eq_spec(&self, other: &Self) -> bool {
        self@ == other@
    }
}

/// Length-prefixed parts, one after another.
pub open spec fn parts_bytes(parts: Seq<Seq<u8>>) -> Seq<u8>
    decreases parts.len(),
{
    if parts.len() == 0 {
        Seq::empty()
    } else {
        parts_bytes(parts.drop_last()) + wire::blob(parts.last())
    }
}

/// The bytes of a key: the namespace, then every part with its length before it.
pub open spec fn key_bytes(ns: Namespace, parts: Seq<Seq<u8>>) -> Seq<u8> {
    seq![ns.prefix()] + parts_bytes(parts)
}

/// The views of some byte slices.
pub open spec fn part_views(parts: Seq<&[u8]>) -> Seq<Seq<u8>> {
    Seq::new(parts.len(), |i: int| parts[i]@)
}

/// The key of a balance.
pub open spec fn balance_key(address: Address, denom: Seq<char>) -> Seq<u8> {
    key_bytes(Namespace::Balance, seq![address.0@, encode_utf8(denom)])
}

/// The key of an account record.
pub open spec fn account_key(address: Address) -> Seq<u8> {
    key_bytes(Namespace::Account, seq![address.0@])
}

/// The key of a denomination's total supply.
pub open spec fn supply_key(denom: Seq<char>) -> Seq<u8> {
    key_bytes(Namespace::Supply, seq![encode_utf8(denom)])
}

/// The key of a sovereign issuer's authorisation record.
pub open spec fn issuer_key(denom: Seq<char>) -> Seq<u8> {
    key_bytes(Namespace::Issuer, seq![encode_utf8(denom)])
}

/// The key that records that an address is frozen for a denomination.
pub open spec fn frozen_key(denom: Seq<char>, address: Address) -> Seq<u8> {
    key_bytes(Namespace::Frozen, seq![encode_utf8(denom), address.0@])
}

/// The key of a username's record.
pub open spec fn alias_key(name: Seq<char>) -> Seq<u8> {
    key_bytes(Namespace::Alias, seq![encode_utf8(name)])
}

/// The key of a contact commitment's record.
pub open spec fn contact_key(commitment: Hash32) -> Seq<u8> {
    key_bytes(Namespace::Contact, seq![commitment.0@])
}

/// The key of the username that an address goes by.
pub open spec fn alias_reverse_key(address: Address) -> Seq<u8> {
    key_bytes(Namespace::AliasReverse, seq![address.0@])
}

/// The key of an operator's bond.
pub open spec fn bond_key(operator: Address) -> Seq<u8> {
    key_bytes(Namespace::Validator, seq![operator.0@])
}

/// The key of the list of operators that have bonded.
pub open spec fn bond_index_key() -> Seq<u8> {
    key_bytes(Namespace::Validator, seq![])
}

/// The key of an operator's unbonding queue.
pub open spec fn unbonding_key(operator: Address) -> Seq<u8> {
    key_bytes(Namespace::Unbonding, seq![operator.0@])
}

impl StoreKey {
    /// Build a key in `ns` from raw parts.
    ///
    /// Each part is length-prefixed so that `("ab", "c")` and `("a", "bc")`
    /// cannot produce the same key.
    pub fn new(ns: Namespace, parts: &[&[u8]]) -> (key: Self)
        ensures
            key@ == key_bytes(ns, part_views(parts@)),
    {
        let mut out: Vec<u8> = Vec::new();
        out.push(ns.byte());
        let mut i: usize = 0;
        let ghost all = part_views(parts@);
        assert(out@ =~= key_bytes(ns, all.take(0)));
        while i < parts.len()
            invariant
                i <= parts@.len(),
                all == part_views(parts@),
                out@ == key_bytes(ns, all.take(i as int)),
            decreases parts@.len() - i,
        {
            wire::encode_bytes(parts[i], &mut out);
            assert(all.take(i as int + 1).drop_last() =~= all.take(i as int));
            assert(all.take(i as int + 1).last() == parts@[i as int]@);
            assert(out@ =~= key_bytes(ns, all.take(i as int + 1)));
            i += 1;
        }
        assert(all.take(all.len() as int) =~= all);
        StoreKey(out)
    }

    /// The key for an account's balance in one denomination.
    pub fn balance(address: &Address, denom: &Denom) -> (key: Self)
        ensures
            key@ == balance_key(*address, denom@),
    {
        let parts: [&[u8]; 2] = [address.as_bytes(), denom.as_str().as_bytes()];
        assert(part_views(parts@) =~= seq![address.0@, encode_utf8(denom@)]);
        Self::new(Namespace::Balance, &parts)
    }

    /// The key for an account record.
    pub fn account(address: &Address) -> (key: Self)
        ensures
            key@ == account_key(*address),
    {
        let parts: [&[u8]; 1] = [address.as_bytes()];
        assert(part_views(parts@) =~= seq![address.0@]);
        Self::new(Namespace::Account, &parts)
    }

    /// The key for a denomination's total supply.
    pub fn supply(denom: &Denom) -> (key: Self)
        ensures
            key@ == supply_key(denom@),
    {
        let parts: [&[u8]; 1] = [denom.as_str().as_bytes()];
        assert(part_views(parts@) =~= seq![encode_utf8(denom@)]);
        Self::new(Namespace::Supply, &parts)
    }

    /// The key for a sovereign issuer's authorisation record.
    pub fn issuer(denom: &Denom) -> (key: Self)
        ensures
            key@ == issuer_key(denom@),
    {
        let parts: [&[u8]; 1] = [denom.as_str().as_bytes()];
        assert(part_views(parts@) =~= seq![encode_utf8(denom@)]);
        Self::new(Namespace::Issuer, &parts)
    }

    /// The key recording that `address` is frozen for `denom`.
    pub fn frozen(denom: &Denom, address: &Address) -> (key: Self)
        ensures
            key@ == frozen_key(denom@, *address),
    {
        let parts: [&[u8]; 2] = [denom.as_str().as_bytes(), address.as_bytes()];
        assert(part_views(parts@) =~= seq![encode_utf8(denom@), address.0@]);
        Self::new(Namespace::Frozen, &parts)
    }

    /// The key for a username's record.
    pub fn alias(name: &str) -> (key: Self)
        ensures
            key@ == alias_key(name@),
    {
        let parts: [&[u8]; 1] = [name.as_bytes()];
        assert(part_views(parts@) =~= seq![encode_utf8(name@)]);
        Self::new(Namespace::Alias, &parts)
    }

    /// The key for a contact commitment's record.
    pub fn contact(commitment: &Hash32) -> (key: Self)
        ensures
            key@ == contact_key(*commitment),
    {
        let parts: [&[u8]; 1] = [commitment.as_bytes()];
        assert(part_views(parts@) =~= seq![commitment.0@]);
        Self::new(Namespace::Contact, &parts)
    }

    /// The key for the username that `address` goes by.
    pub fn alias_reverse(address: &Address) -> (key: Self)
        ensures
            key@ == alias_reverse_key(*address),
    {
        let parts: [&[u8]; 1] = [address.as_bytes()];
        assert(part_views(parts@) =~= seq![address.0@]);
        Self::new(Namespace::AliasReverse, &parts)
    }

    /// The key for an operator's bond.
    pub fn bond(operator: &Address) -> (key: Self)
        ensures
            key@ == bond_key(*operator),
    {
        let parts: [&[u8]; 1] = [operator.as_bytes()];
        assert(part_views(parts@) =~= seq![operator.0@]);
        Self::new(Namespace::Validator, &parts)
    }

    /// The key for the list of operators that have bonded.
    pub fn bond_index() -> (key: Self)
        ensures
            key@ == bond_index_key(),
    {
        let parts: [&[u8]; 0] = [];
        assert(part_views(parts@) =~= seq![]);
        Self::new(Namespace::Validator, &parts)
    }

    /// The key for an operator's unbonding queue.
    pub fn unbonding(operator: &Address) -> (key: Self)
        ensures
            key@ == unbonding_key(*operator),
    {
        let parts: [&[u8]; 1] = [operator.as_bytes()];
        assert(part_views(parts@) =~= seq![operator.0@]);
        Self::new(Namespace::Unbonding, &parts)
    }

    /// The raw key bytes.
    pub fn as_bytes(&self) -> (b: &[u8])
        ensures
            b@ == self@,
    {
        self.0.as_slice()
    }
}

/// What reading a typed value gives: nothing where nothing is stored, the value
/// where the stored bytes are its encoding, and otherwise the key and the reason.
pub open spec fn typed<T: Decode>(
    entries: Map<Hash32, Seq<u8>>,
    key: Seq<u8>,
) -> Result<Option<T::V>, StateFault> {
    match lookup(entries, path(key)) {
        None => Ok(None),
        Some(bytes) => match parse_exact::<T>(bytes) {
            Ok(v) => Ok(Some(v)),
            Err(f) => Err(StateFault::Corrupt { key: text::hex(key), reason: f.text() }),
        },
    }
}

/// The view of the result of a typed read.
pub open spec fn typed_outcome<T: DeepView>(
    r: Result<Option<T>, StateError>,
) -> Result<Option<T::V>, StateFault> {
    match r {
        Ok(v) => Ok(v.deep_view()),
        Err(e) => Err(e.deep_view()),
    }
}

/// The interface state-touching modules are written against.
pub trait KeyValueStore: Sized {
    /// The entries held, by path.
    spec fn entries(&self) -> Map<Hash32, Seq<u8>>;

    /// Read a value.
    fn get(&self, key: &StoreKey) -> (value: Option<Vec<u8>>)
        ensures
            value.deep_view() == lookup(self.entries(), path(key@)),
    ;

    /// Write a value.
    fn set(&mut self, key: &StoreKey, value: Vec<u8>)
        ensures
            final(self).entries() == old(self).entries().insert(path(key@), value@),
    ;

    /// Delete a value, returning whether it existed.
    fn delete(&mut self, key: &StoreKey) -> (existed: bool)
        ensures
            existed == old(self).entries().dom().contains(path(key@)),
            final(self).entries() == old(self).entries().remove(path(key@)),
    ;

    /// The authenticated root over all current entries.
    fn root(&self) -> (h: Hash32)
        ensures
            h == root_of(self.entries()),
    ;

    /// Read a value together with a proof of the result, including absence.
    fn get_with_proof(&self, key: &StoreKey) -> (r: (Option<Vec<u8>>, Proof))
        ensures
            r.0.deep_view() == lookup(self.entries(), path(key@)),
            r.1.deep_view() == proof_along(tree_of(self.entries()), path(key@)),
    ;

    /// Read and decode a typed value.
    fn get_decoded<T: Decode>(&self, key: &StoreKey) -> (r: Result<Option<T>, StateError>)
        ensures
            typed_outcome(r) == typed::<T>(self.entries(), key@),
    {
        match self.get(key) {
            None => Ok(None),
            Some(bytes) => {
                assert(bytes.deep_view() =~= bytes@);
                match decode_exact::<T>(bytes.as_slice()) {
                    Ok(value) => Ok(Some(value)),
                    Err(e) => Err(
                        StateError::Corrupt {
                            key: text::hex_text(key.as_bytes()),
                            reason: e.to_string(),
                        },
                    ),
                }
            },
        }
    }

    /// Encode and write a typed value.
    fn set_encoded<T: Encode>(&mut self, key: &StoreKey, value: &T)
        ensures
            final(self).entries() == old(self).entries().insert(
                path(key@),
                T::bytes_of(value.deep_view()),
            ),
    {
        self.set(key, value.to_bytes());
    }
}

/// An in-memory store backed by the sparse Merkle tree.
#[derive(Debug)]
pub struct MemoryStore {
    tree: SparseMerkleTree,
}

impl View for MemoryStore {
    type V = Map<Hash32, Seq<u8>>;

    closed spec fn view(&self) -> Map<Hash32, Seq<u8>> {
        self.tree@
    }
}

impl Clone for MemoryStore {
    fn clone(&self) -> (r: Self)
        ensures
            r@ == self@,
    {
        MemoryStore { tree: self.tree.clone() }
    }
}

impl Default for MemoryStore {
    fn default() -> (r: Self)
        ensures
            r@ == Map::<Hash32, Seq<u8>>::empty(),
    {
        Self::new()
    }
}

impl MemoryStore {
    /// A fresh empty store.
    pub fn new() -> (r: Self)
        ensures
            r@ == Map::<Hash32, Seq<u8>>::empty(),
    {
        MemoryStore { tree: SparseMerkleTree::new() }
    }

    /// Number of entries held, as far as a `usize` can say.
    pub fn len(&self) -> (n: usize)
        ensures
            self@.dom().finite(),
            n == (if self@.dom().len() <= usize::MAX {
                self@.dom().len()
            } else {
                usize::MAX as nat
            }),
    {
        self.tree.len()
    }

    /// Whether the store is empty.
    pub fn is_empty(&self) -> (b: bool)
        ensures
            b == (self@ == Map::<Hash32, Seq<u8>>::empty()),
    {
        self.tree.is_empty()
    }

    /// The underlying tree, for persistence.
    pub fn tree(&self) -> (t: &SparseMerkleTree)
        ensures
            t@ == self@,
    {
        &self.tree
    }

    /// Wrap an already-built tree, as reconstructed from persisted nodes.
    pub fn from_tree(tree: SparseMerkleTree) -> (r: Self)
        ensures
            r@ == tree@,
    {
        MemoryStore { tree }
    }
}

impl KeyValueStore for MemoryStore {
    open spec fn entries(&self) -> Map<Hash32, Seq<u8>> {
        self@
    }

    fn get(&self, key: &StoreKey) -> (value: Option<Vec<u8>>) {
        match self.tree.get(key.as_bytes()) {
            None => None,
            Some(value) => {
                let copy = value.clone();
                assert(copy@ =~= value@);
                assert(copy.deep_view() =~= value.deep_view());
                Some(copy)
            },
        }
    }

    fn set(&mut self, key: &StoreKey, value: Vec<u8>) {
        self.tree.insert(key.as_bytes(), value);
    }

    fn delete(&mut self, key: &StoreKey) -> (existed: bool) {
        self.tree.remove(key.as_bytes())
    }

    fn root(&self) -> (h: Hash32) {
        self.tree.root()
    }

    fn get_with_proof(&self, key: &StoreKey) -> (r: (Option<Vec<u8>>, Proof)) {
        (self.get(key), self.tree.prove(key.as_bytes()))
    }
}

// ---------------------------------------------------------------------------
// Keys
// ---------------------------------------------------------------------------

/// Whether a part is short enough for its length prefix to hold its length.
pub open spec fn framed(parts: Seq<Seq<u8>>) -> bool {
    forall|i: int| 0 <= i < parts.len() ==> (#[trigger] parts[i]).len() <= u32::MAX
}

/// A framed part, with whatever follows it, determines the part and what follows.
proof fn lemma_blob_determines(a: Seq<u8>, x: Seq<u8>, b: Seq<u8>, y: Seq<u8>)
    requires
        a.len() <= u32::MAX,
        b.len() <= u32::MAX,
        wire::blob(a) + x == wire::blob(b) + y,
    ensures
        a == b,
        x == y,
{
    let m = wire::blob(a) + x;
    let la = u32::bytes_of(a.len() as u32);
    let lb = u32::bytes_of(b.len() as u32);
    wire::lemma_le_bytes_len(a.len(), 4);
    wire::lemma_le_bytes_len(b.len(), 4);
    assert(la =~= m.take(4));
    assert(lb =~= m.take(4));
    wire::lemma_le_spans();
    wire::lemma_le_value_of_bytes(a.len(), 4);
    wire::lemma_le_value_of_bytes(b.len(), 4);
    assert(a =~= m.subrange(4, 4 + a.len() as int));
    assert(b =~= m.subrange(4, 4 + b.len() as int));
    assert(x =~= m.skip(4 + a.len() as int));
    assert(y =~= m.skip(4 + b.len() as int));
}

/// The parts of a key from the front.
proof fn lemma_parts_from_front(parts: Seq<Seq<u8>>)
    requires
        parts.len() > 0,
    ensures
        parts_bytes(parts) == wire::blob(parts[0]) + parts_bytes(parts.drop_first()),
    decreases parts.len(),
{
    if parts.len() == 1 {
        assert(parts.drop_last() =~= Seq::empty());
        assert(parts.drop_first() =~= Seq::empty());
        assert(parts_bytes(parts.drop_last()) =~= Seq::empty());
        assert(parts_bytes(parts.drop_first()) =~= Seq::empty());
        assert(parts_bytes(parts) =~= wire::blob(parts[0]) + parts_bytes(parts.drop_first()));
    } else {
        lemma_parts_from_front(parts.drop_last());
        assert(parts.drop_last().drop_first() =~= parts.drop_first().drop_last());
        assert(parts.drop_first().last() == parts.last());
        assert(parts_bytes(parts) =~= wire::blob(parts[0]) + parts_bytes(parts.drop_first()));
    }
}

proof fn lemma_parts_determine(a: Seq<Seq<u8>>, b: Seq<Seq<u8>>)
    requires
        framed(a),
        framed(b),
        parts_bytes(a) == parts_bytes(b),
    ensures
        a == b,
    decreases a.len(),
{
    if a.len() > 0 {
        lemma_parts_from_front(a);
        wire::lemma_le_bytes_len(a[0].len(), 4);
        assert(wire::blob(a[0]).len() >= 4);
    }
    if b.len() > 0 {
        lemma_parts_from_front(b);
        wire::lemma_le_bytes_len(b[0].len(), 4);
        assert(wire::blob(b[0]).len() >= 4);
    }
    if a.len() == 0 {
        assert(parts_bytes(a).len() == 0);
        assert(a =~= b);
    } else if b.len() == 0 {
        assert(parts_bytes(b).len() == 0);
    } else {
        lemma_blob_determines(
            a[0],
            parts_bytes(a.drop_first()),
            b[0],
            parts_bytes(b.drop_first()),
        );
        assert forall|i: int| 0 <= i < a.drop_first().len() implies (
            #[trigger] a.drop_first()[i]
        ).len()
            <= u32::MAX by {
            assert(a.drop_first()[i] == a[i + 1]);
        }
        assert forall|i: int| 0 <= i < b.drop_first().len() implies (
            #[trigger] b.drop_first()[i]
        ).len()
            <= u32::MAX by {
            assert(b.drop_first()[i] == b[i + 1]);
        }
        lemma_parts_determine(a.drop_first(), b.drop_first());
        assert(a =~= seq![a[0]] + a.drop_first());
        assert(b =~= seq![b[0]] + b.drop_first());
    }
}

/// Namespaces keep modules apart: no byte stands for two of them.
pub proof fn law_namespaces_are_disjoint(a: Namespace, b: Namespace)
    requires
        a.prefix() == b.prefix(),
    ensures
        a == b,
{
}

/// One account's data cannot be read as another's: two keys are the same only when
/// they are of one namespace and have the same parts, in the same places.
pub proof fn law_keys_determine_their_parts(
    ns: Namespace,
    parts: Seq<Seq<u8>>,
    other_ns: Namespace,
    other_parts: Seq<Seq<u8>>,
)
    requires
        framed(parts),
        framed(other_parts),
        key_bytes(ns, parts) == key_bytes(other_ns, other_parts),
    ensures
        ns == other_ns,
        parts == other_parts,
{
    let a = key_bytes(ns, parts);
    let b = key_bytes(other_ns, other_parts);
    assert(a[0] == ns.prefix() && b[0] == other_ns.prefix());
    assert(a.skip(1) =~= parts_bytes(parts));
    assert(b.skip(1) =~= parts_bytes(other_parts));
    lemma_parts_determine(parts, other_parts);
}

/// A typed value reads back as it was written, as long as it has an encoding that
/// decodes.
pub proof fn law_typed_value_reads_back<T: crate::primitives::codec::Canonical>(
    entries: Map<Hash32, Seq<u8>>,
    key: Seq<u8>,
    v: T::V,
)
    requires
        T::valid(v),
    ensures
        typed::<T>(entries.insert(path(key), T::bytes_of(v)), key) == Ok::<
            Option<T::V>,
            StateFault,
        >(Some(v)),
{
    crate::primitives::codec::law_decode_exact_inverts_encode::<T>(v);
}

} // verus!
