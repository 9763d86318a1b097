//! Membership and non-membership proofs of the state tree.

use crate::crypto::hash::{
    clash_free, digest, hash, hash_parts, lemma_hash_bytes_determine, Domain, Hash32, Preimage,
};
use crate::primitives::codec::{
    fault, Canonical, CodecError, CodecFault, Decode, Encode, Parsed, Reader, MAX_FIELD_LEN,
};
use crate::primitives::text;
use crate::primitives::wire;
use crate::state::shape::{
    agree, leaf_digest, lemma_branch_entries, lemma_tree_of, lookup, node_digest, path, root_of,
    tree_of, Shape,
};
use vstd::prelude::*;

verus! {

/// The deepest a proof can be: one sibling per bit of the 256-bit key hash.
pub const MAX_PROOF_DEPTH: usize = 256;

/// What a proof terminates in.
#[derive(Debug, Clone, PartialEq, Eq)]
pub enum ProofLeaf {
    /// The queried key is present with this value.
    Present {
        /// The committed value.
        value: Vec<u8>,
    },
    /// The path ends in an empty subtree, so the key is absent.
    Absent,
    /// The path ends in a different key's leaf, so the queried key is absent.
    AbsentOccupied {
        /// The colliding key's path hash.
        other_key_hash: Hash32,
        /// The colliding leaf's committed value.
        other_value: Vec<u8>,
    },
}

/// A membership or non-membership proof.
#[derive(Debug, Clone, PartialEq, Eq)]
pub struct Proof {
    /// Sibling hashes ordered from the root downward.
    pub siblings: Vec<Hash32>,
    /// The terminal node.
    pub leaf: ProofLeaf,
}

/// The mathematical view of a [`ProofLeaf`].
pub enum LeafView {
    Present { value: Seq<u8> },
    Absent,
    AbsentOccupied { other_key_hash: Hash32, other_value: Seq<u8> },
}

/// The mathematical view of a [`Proof`].
pub struct ProofView {
    pub siblings: Seq<Hash32>,
    pub leaf: LeafView,
}

impl DeepView for ProofLeaf {
    type V = LeafView;

    open spec fn deep_view(&self) -> LeafView {
        match *self {
            ProofLeaf::Present { value } => LeafView::Present { value: value@ },
            ProofLeaf::Absent => LeafView::Absent,
            ProofLeaf::AbsentOccupied { other_key_hash, other_value } => LeafView::AbsentOccupied {
                other_key_hash,
                other_value: other_value@,
            },
        }
    }
}

impl DeepView for Proof {
    type V = ProofView;

    open spec fn deep_view(&self) -> ProofView {
        ProofView { siblings: self.siblings@, leaf: self.leaf.deep_view() }
    }
}

impl LeafView {
    /// What the proof says is stored: a value, or nothing.
    pub open spec fn claim(self) -> Option<Seq<u8>> {
        match self {
            LeafView::Present { value } => Some(value),
            _ => None,
        }
    }
}

/// The root that siblings imply above a node `depth` steps down the path of `key`.
pub open spec fn climb(key: Hash32, depth: nat, siblings: Seq<Hash32>, node: Hash32) -> Hash32
    decreases siblings.len(),
{
    if siblings.len() == 0 {
        node
    } else {
        let below = climb(key, depth + 1, siblings.drop_first(), node);
        if key.bit_at(depth as int) {
            node_digest(siblings[0], below)
        } else {
            node_digest(below, siblings[0])
        }
    }
}

impl ProofView {
    /// The root this proof implies for a key, unless it is malformed.
    ///
    /// A proof of absence by occupation must show another key's leaf, on the
    /// queried key's own path.
    pub open spec fn implied_root(self, key: Seq<u8>) -> Option<Hash32> {
        let kh = path(key);
        if self.siblings.len() > MAX_PROOF_DEPTH {
            None
        } else {
            match self.leaf {
                LeafView::Present { value } => Some(
                    climb(kh, 0, self.siblings, leaf_digest(kh, value)),
                ),
                LeafView::Absent => Some(climb(kh, 0, self.siblings, Hash32::all_zero())),
                LeafView::AbsentOccupied { other_key_hash, other_value } => if other_key_hash == kh
                    || !agree(kh, other_key_hash, self.siblings.len()) {
                    None
                } else {
                    Some(climb(kh, 0, self.siblings, leaf_digest(other_key_hash, other_value)))
                },
            }
        }
    }

    /// Whether this proof shows that `key` maps to `expected` under `root`.
    pub open spec fn shows(self, root: Hash32, key: Seq<u8>, expected: Option<Seq<u8>>) -> bool {
        self.leaf.claim() == expected && self.implied_root(key) == Some(root)
    }
}

/// The hash of a leaf binding a key's path to a value.
pub fn leaf_hash(key_hash: Hash32, value: &[u8]) -> (h: Hash32)
    ensures
        h == leaf_digest(key_hash, value@),
{
    let value_hash = hash(Domain::StateLeaf, value);
    hash_parts(Domain::StateLeaf, &key_hash.0, &value_hash.0)
}

/// The hash of an internal node.
pub fn node_hash(left: Hash32, right: Hash32) -> (h: Hash32)
    ensures
        h == node_digest(left, right),
{
    hash_parts(Domain::StateNode, &left.0, &right.0)
}

/// Map a raw key to its 256-bit path through the tree.
pub fn key_hash(key: &[u8]) -> (h: Hash32)
    ensures
        h == path(key@),
{
    hash(Domain::StateLeaf, key)
}

fn shares_prefix(a: &Hash32, b: &Hash32, bits: usize) -> (r: bool)
    requires
        bits <= 256,
    ensures
        r == agree(*a, *b, bits as nat),
{
    let mut i: usize = 0;
    while i < bits
        invariant
            i <= bits <= 256,
            forall|j: int| 0 <= j < i ==> #[trigger] a.bit_at(j) == b.bit_at(j),
        decreases bits - i,
    {
        if a.bit(i) != b.bit(i) {
            assert(a.bit_at(i as int) != b.bit_at(i as int));
            return false;
        }
        i += 1;
    }
    true
}

impl Proof {
    /// Recompute the root this proof implies for `key`.
    ///
    /// Returns `None` if the proof is malformed, for example an
    /// [`ProofLeaf::AbsentOccupied`] whose other key does not share the queried
    /// key's prefix.
    pub fn compute_root(&self, key: &[u8]) -> (root: Option<Hash32>)
        ensures
            root == self.deep_view().implied_root(key@),
    {
        let kh = key_hash(key);
        let depth: usize = self.siblings.len();
        if depth > MAX_PROOF_DEPTH {
            return None;
        }
        let end = match &self.leaf {
            ProofLeaf::Present { value } => leaf_hash(kh, value),
            ProofLeaf::Absent => Hash32::zero(),
            ProofLeaf::AbsentOccupied { other_key_hash, other_value } => {
                if other_key_hash.same(&kh) {
                    // Claiming absence while presenting our own key is a lie.
                    return None;
                }
                if !shares_prefix(&kh, other_key_hash, depth) {
                    // The other leaf is not on our path, so it proves nothing
                    // about our key.
                    return None;
                }
                leaf_hash(*other_key_hash, other_value)
            },
        };
        let mut acc = end;
        let mut level: usize = depth;
        let ghost siblings = self.siblings@;
        assert(siblings.skip(depth as int) =~= Seq::empty());
        while level > 0
            invariant
                level <= depth == self.siblings@.len() <= 256,
                siblings == self.siblings@,
                acc == climb(kh, level as nat, siblings.skip(level as int), end),
            decreases level,
        {
            level -= 1;
            let sibling = self.siblings[level];
            assert(siblings.skip(level as int).drop_first() =~= siblings.skip(level as int + 1));
            acc = if kh.bit(level) {
                node_hash(sibling, acc)
            } else {
                node_hash(acc, sibling)
            };
        }
        assert(siblings.skip(0) =~= siblings);
        Some(acc)
    }

    /// Verify that `key` maps to `expected` under `root`.
    ///
    /// `expected` is `None` to assert absence.
    pub fn verify(&self, root: Hash32, key: &[u8], expected: Option<&[u8]>) -> (b: bool)
        ensures
            b == self.deep_view().shows(root, key@, expected.deep_view()),
    {
        proof {
            if let Some(want) = expected {
                assert(want.deep_view() =~= want@);
            }
        }
        let matches_claim = match (&self.leaf, expected) {
            (ProofLeaf::Present { value }, Some(want)) => text::same_bytes(value, want),
            (ProofLeaf::Present { .. }, None) => false,
            (ProofLeaf::Absent, None) => true,
            (ProofLeaf::AbsentOccupied { .. }, None) => true,
            (_, Some(_)) => false,
        };
        if !matches_claim {
            return false;
        }
        match self.compute_root(key) {
            Some(implied) => implied.same(&root),
            None => false,
        }
    }
}

// ---------------------------------------------------------------------------
// Laws
// ---------------------------------------------------------------------------

/// The sibling hashes along a path through a tree.
pub open spec fn siblings_along(s: Shape, key: Hash32, depth: nat) -> Seq<Hash32>
    decreases s,
{
    match s {
        Shape::Branch { left, right } => if key.bit_at(depth as int) {
            seq![left.hash()] + siblings_along(*right, key, depth + 1)
        } else {
            seq![right.hash()] + siblings_along(*left, key, depth + 1)
        },
        _ => Seq::empty(),
    }
}

/// What a path through a tree ends in.
pub open spec fn end_of(s: Shape, key: Hash32, depth: nat) -> LeafView
    decreases s,
{
    match s {
        Shape::Empty => LeafView::Absent,
        Shape::Leaf { key: k, value } => if k == key {
            LeafView::Present { value }
        } else {
            LeafView::AbsentOccupied { other_key_hash: k, other_value: value }
        },
        Shape::Branch { left, right } => if key.bit_at(depth as int) {
            end_of(*right, key, depth + 1)
        } else {
            end_of(*left, key, depth + 1)
        },
    }
}

/// The proof that a tree gives for a path.
pub open spec fn proof_along(s: Shape, key: Hash32) -> ProofView {
    ProofView { siblings: siblings_along(s, key, 0), leaf: end_of(s, key, 0) }
}

/// The digest that a proof starts from.
pub open spec fn end_digest(key: Hash32, leaf: LeafView) -> Hash32 {
    match leaf {
        LeafView::Present { value } => leaf_digest(key, value),
        LeafView::Absent => Hash32::all_zero(),
        LeafView::AbsentOccupied { other_key_hash, other_value } => leaf_digest(
            other_key_hash,
            other_value,
        ),
    }
}

proof fn lemma_proof_along(s: Shape, key: Hash32, depth: nat)
    requires
        s.canonical(depth),
        depth <= 256,
        forall|k: Hash32| #[trigger] s.entries().dom().contains(k) ==> agree(key, k, depth),
    ensures
        depth + siblings_along(s, key, depth).len() <= 256,
        end_of(s, key, depth).claim() == lookup(s.entries(), key),
        climb(key, depth, siblings_along(s, key, depth), end_digest(key, end_of(s, key, depth)))
            == s.hash(),
        end_of(s, key, depth) matches LeafView::AbsentOccupied { other_key_hash, .. } ==> {
            &&& other_key_hash != key
            &&& agree(key, other_key_hash, depth + siblings_along(s, key, depth).len())
        },
    decreases s,
{
    match s {
        Shape::Empty => {},
        Shape::Leaf { key: k, value } => {
            assert(s.entries().dom().contains(k));
        },
        Shape::Branch { left, right } => {
            lemma_branch_entries(*left, *right, depth);
            let side = if key.bit_at(depth as int) {
                right
            } else {
                left
            };
            assert forall|k: Hash32| #[trigger] side.entries().dom().contains(k) implies agree(
                key,
                k,
                depth + 1,
            ) by {
                assert(s.entries().dom().contains(k));
                assert(agree(key, k, depth));
                if key.bit_at(depth as int) {
                    assert(right.entries().dom().contains(k));
                } else {
                    assert(left.entries().dom().contains(k));
                }
            }
            lemma_proof_along(*side, key, depth + 1);
            let all = siblings_along(s, key, depth);
            assert(all.drop_first() =~= siblings_along(*side, key, depth + 1));
            assert(lookup(s.entries(), key) == lookup(side.entries(), key));
        },
    }
}

/// A tree proves what it holds: for every key, present or absent, the proof taken
/// along its path shows exactly what is stored there.
pub proof fn law_proofs_are_complete(s: Shape, key: Seq<u8>)
    requires
        s.canonical(0),
    ensures
        proof_along(s, path(key)).shows(s.hash(), key, lookup(s.entries(), path(key))),
{
    lemma_proof_along(s, path(key), 0);
}

/// What hashing a tree hashes.
pub open spec fn hashed_in(s: Shape) -> Set<Preimage>
    decreases s,
{
    match s {
        Shape::Empty => Set::empty(),
        Shape::Leaf { key, value } => leaf_preimages(key, value),
        Shape::Branch { left, right } => hashed_in(*left).union(hashed_in(*right)).insert(
            node_preimage(left.hash(), right.hash()),
        ),
    }
}

pub open spec fn leaf_preimages(key: Hash32, value: Seq<u8>) -> Set<Preimage> {
    Set::empty().insert(Preimage { domain: Domain::StateLeaf, bytes: value }).insert(
        Preimage {
            domain: Domain::StateLeaf,
            bytes: key.0@ + digest(Domain::StateLeaf, value).0@,
        },
    )
}

pub open spec fn node_preimage(left: Hash32, right: Hash32) -> Preimage {
    Preimage { domain: Domain::StateNode, bytes: left.0@ + right.0@ }
}

/// What climbing from a proof's end to the root hashes.
pub open spec fn hashed_climbing(
    key: Hash32,
    depth: nat,
    siblings: Seq<Hash32>,
    node: Hash32,
) -> Set<Preimage>
    decreases siblings.len(),
{
    if siblings.len() == 0 {
        Set::empty()
    } else {
        let below = climb(key, depth + 1, siblings.drop_first(), node);
        hashed_climbing(key, depth + 1, siblings.drop_first(), node).insert(
            if key.bit_at(depth as int) {
                node_preimage(siblings[0], below)
            } else {
                node_preimage(below, siblings[0])
            },
        )
    }
}

/// What checking a proof hashes, besides the key.
pub open spec fn hashed_checking(p: ProofView, key: Hash32) -> Set<Preimage> {
    let end = match p.leaf {
        LeafView::Present { value } => leaf_preimages(key, value),
        LeafView::Absent => Set::empty(),
        LeafView::AbsentOccupied { other_key_hash, other_value } => leaf_preimages(
            other_key_hash,
            other_value,
        ),
    };
    end.union(hashed_climbing(key, 0, p.siblings, end_digest(key, p.leaf)))
}

/// Joined digests determine their parts.
proof fn lemma_join_determines(a: Hash32, b: Hash32, c: Hash32, d: Hash32)
    requires
        a.0@ + b.0@ == c.0@ + d.0@,
    ensures
        a == c,
        b == d,
{
    assert((a.0@ + b.0@).take(32) =~= a.0@);
    assert((c.0@ + d.0@).take(32) =~= c.0@);
    assert((a.0@ + b.0@).skip(32) =~= b.0@);
    assert((c.0@ + d.0@).skip(32) =~= d.0@);
    lemma_hash_bytes_determine(a, c);
    lemma_hash_bytes_determine(b, d);
}

/// Two leaves with one digest, among hashes that do not clash, are one leaf.
proof fn lemma_leaf_binds(hashed: Set<Preimage>, k1: Hash32, v1: Seq<u8>, k2: Hash32, v2: Seq<u8>)
    requires
        clash_free(hashed),
        leaf_preimages(k1, v1).subset_of(hashed),
        leaf_preimages(k2, v2).subset_of(hashed),
        leaf_digest(k1, v1) == leaf_digest(k2, v2),
    ensures
        k1 == k2,
        v1 == v2,
{
    let h1 = digest(Domain::StateLeaf, v1);
    let h2 = digest(Domain::StateLeaf, v2);
    let a = Preimage { domain: Domain::StateLeaf, bytes: k1.0@ + h1.0@ };
    let b = Preimage { domain: Domain::StateLeaf, bytes: k2.0@ + h2.0@ };
    assert(leaf_preimages(k1, v1).contains(a));
    assert(leaf_preimages(k2, v2).contains(b));
    assert(hashed.contains(a) && hashed.contains(b));
    assert(a == b);
    lemma_join_determines(k1, h1, k2, h2);
    let x = Preimage { domain: Domain::StateLeaf, bytes: v1 };
    let y = Preimage { domain: Domain::StateLeaf, bytes: v2 };
    assert(leaf_preimages(k1, v1).contains(x));
    assert(leaf_preimages(k2, v2).contains(y));
    assert(hashed.contains(x) && hashed.contains(y));
}

/// The preimage that a tree's own digest comes from, if it is not empty.
pub open spec fn top_preimage(s: Shape) -> Preimage {
    match s {
        Shape::Leaf { key, value } => Preimage {
            domain: Domain::StateLeaf,
            bytes: key.0@ + digest(Domain::StateLeaf, value).0@,
        },
        Shape::Branch { left, right } => node_preimage(left.hash(), right.hash()),
        Shape::Empty => arbitrary(),
    }
}

pub proof fn lemma_top_preimage(s: Shape)
    requires
        !(s is Empty),
    ensures
        hashed_in(s).contains(top_preimage(s)),
        top_preimage(s).hash() == s.hash(),
{
}

proof fn lemma_sound_from(
    hashed: Set<Preimage>,
    s: Shape,
    key: Hash32,
    depth: nat,
    siblings: Seq<Hash32>,
    leaf: LeafView,
)
    requires
        clash_free(hashed),
        s.canonical(depth),
        hashed_in(s).subset_of(hashed),
        hashed_climbing(key, depth, siblings, end_digest(key, leaf)).subset_of(hashed),
        leaf matches LeafView::Present { value } ==> leaf_preimages(key, value).subset_of(hashed),
        leaf matches LeafView::AbsentOccupied { other_key_hash, other_value } ==> other_key_hash
            != key && leaf_preimages(other_key_hash, other_value).subset_of(hashed),
        climb(key, depth, siblings, end_digest(key, leaf)) == s.hash(),
    ensures
        lookup(s.entries(), key) == leaf.claim(),
    decreases siblings.len(),
{
    if !(s is Empty) {
        lemma_top_preimage(s);
        assert(hashed.contains(top_preimage(s)));
    }
    if siblings.len() == 0 {
        match leaf {
            LeafView::Present { value } => {
                let a = top_preimage(Shape::Leaf { key, value });
                assert(leaf_preimages(key, value).contains(a));
                assert(hashed.contains(a));
                match s {
                    Shape::Leaf { key: k, value: v } => {
                        lemma_leaf_binds(hashed, key, value, k, v);
                    },
                    _ => {},
                }
            },
            LeafView::Absent => {},
            LeafView::AbsentOccupied { other_key_hash, other_value } => {
                let a = top_preimage(Shape::Leaf { key: other_key_hash, value: other_value });
                assert(leaf_preimages(other_key_hash, other_value).contains(a));
                assert(hashed.contains(a));
                match s {
                    Shape::Leaf { key: k, value: v } => {
                        lemma_leaf_binds(hashed, other_key_hash, other_value, k, v);
                    },
                    _ => {},
                }
            },
        }
    } else {
        let node = end_digest(key, leaf);
        let below = climb(key, depth + 1, siblings.drop_first(), node);
        let a = if key.bit_at(depth as int) {
            node_preimage(siblings[0], below)
        } else {
            node_preimage(below, siblings[0])
        };
        assert(hashed_climbing(key, depth, siblings, node).contains(a));
        assert(hashed.contains(a));
        assert(a.hash() == s.hash());
        match s {
            Shape::Branch { left, right } => {
                assert(a == top_preimage(s));
                lemma_branch_entries(*left, *right, depth);
                assert(hashed_in(*left).subset_of(hashed_in(s)));
                assert(hashed_in(*right).subset_of(hashed_in(s)));
                if key.bit_at(depth as int) {
                    lemma_join_determines(siblings[0], below, left.hash(), right.hash());
                    lemma_sound_from(hashed, *right, key, depth + 1, siblings.drop_first(), leaf);
                } else {
                    lemma_join_determines(below, siblings[0], left.hash(), right.hash());
                    lemma_sound_from(hashed, *left, key, depth + 1, siblings.drop_first(), leaf);
                }
                assert(lookup(s.entries(), key) == leaf.claim());
            },
            _ => {},
        }
    }
}

/// Nobody can forge a balance, deny one, or show one key's value for another: a
/// proof that checks out against a tree's root says what the tree holds, as long
/// as the hashes involved do not clash.
pub proof fn law_proofs_are_sound(s: Shape, p: ProofView, key: Seq<u8>, expected: Option<Seq<u8>>)
    requires
        s.canonical(0),
        p.shows(s.hash(), key, expected),
        clash_free(hashed_in(s).union(hashed_checking(p, path(key)))),
    ensures
        lookup(s.entries(), path(key)) == expected,
{
    let hashed = hashed_in(s).union(hashed_checking(p, path(key)));
    lemma_sound_from(hashed, s, path(key), 0, p.siblings, p.leaf);
}

/// A set of entries proves what it holds, under the root that commits to it.
pub proof fn law_entries_are_provable(entries: Map<Hash32, Seq<u8>>, key: Seq<u8>)
    requires
        entries.dom().finite(),
    ensures
        proof_along(tree_of(entries), path(key)).shows(
            root_of(entries),
            key,
            lookup(entries, path(key)),
        ),
{
    lemma_tree_of(entries);
    law_proofs_are_complete(tree_of(entries), key);
}

/// A proof that checks out against the root of a set of entries says what the set
/// holds, as long as the hashes involved do not clash.
pub proof fn law_entries_cannot_be_forged(
    entries: Map<Hash32, Seq<u8>>,
    p: ProofView,
    key: Seq<u8>,
    expected: Option<Seq<u8>>,
)
    requires
        entries.dom().finite(),
        p.shows(root_of(entries), key, expected),
        clash_free(hashed_in(tree_of(entries)).union(hashed_checking(p, path(key)))),
    ensures
        lookup(entries, path(key)) == expected,
{
    lemma_tree_of(entries);
    law_proofs_are_sound(tree_of(entries), p, key, expected);
}

/// Two trees with one root, among hashes that do not clash, are one tree.
pub proof fn lemma_hash_binds_shape(hashed: Set<Preimage>, s: Shape, t: Shape)
    requires
        clash_free(hashed),
        hashed_in(s).subset_of(hashed),
        hashed_in(t).subset_of(hashed),
        s.hash() == t.hash(),
    ensures
        s == t,
    decreases s,
{
    if !(s is Empty) {
        lemma_top_preimage(s);
        assert(hashed.contains(top_preimage(s)));
    }
    if !(t is Empty) {
        lemma_top_preimage(t);
        assert(hashed.contains(top_preimage(t)));
    }
    match (s, t) {
        (Shape::Leaf { key: k1, value: v1 }, Shape::Leaf { key: k2, value: v2 }) => {
            lemma_leaf_binds(hashed, k1, v1, k2, v2);
        },
        (Shape::Branch { left: l1, right: r1 }, Shape::Branch { left: l2, right: r2 }) => {
            lemma_join_determines(l1.hash(), r1.hash(), l2.hash(), r2.hash());
            assert(hashed_in(*l1).subset_of(hashed_in(s)));
            assert(hashed_in(*r1).subset_of(hashed_in(s)));
            assert(hashed_in(*l2).subset_of(hashed_in(t)));
            assert(hashed_in(*r2).subset_of(hashed_in(t)));
            lemma_hash_binds_shape(hashed, *l1, *l2);
            lemma_hash_binds_shape(hashed, *r1, *r2);
        },
        _ => {},
    }
}

/// The root commits to the entries: different entries have different roots, as
/// long as the hashes involved do not clash.
pub proof fn law_root_commits_to_entries(a: Map<Hash32, Seq<u8>>, b: Map<Hash32, Seq<u8>>)
    requires
        a.dom().finite(),
        b.dom().finite(),
        root_of(a) == root_of(b),
        clash_free(hashed_in(tree_of(a)).union(hashed_in(tree_of(b)))),
    ensures
        a == b,
{
    lemma_tree_of(a);
    lemma_tree_of(b);
    let hashed = hashed_in(tree_of(a)).union(hashed_in(tree_of(b)));
    lemma_hash_binds_shape(hashed, tree_of(a), tree_of(b));
}

/// Removing what was added restores the previous root.
pub proof fn law_removal_restores_root(entries: Map<Hash32, Seq<u8>>, key: Hash32, value: Seq<u8>)
    requires
        !entries.dom().contains(key),
    ensures
        root_of(entries.insert(key, value).remove(key)) == root_of(entries),
{
    assert(entries.insert(key, value).remove(key) =~= entries);
}

/// The order in which two keys are written does not show in the root.
pub proof fn law_root_ignores_write_order(
    entries: Map<Hash32, Seq<u8>>,
    k1: Hash32,
    v1: Seq<u8>,
    k2: Hash32,
    v2: Seq<u8>,
)
    requires
        k1 != k2,
    ensures
        root_of(entries.insert(k1, v1).insert(k2, v2)) == root_of(
            entries.insert(k2, v2).insert(k1, v1),
        ),
{
    assert(entries.insert(k1, v1).insert(k2, v2) =~= entries.insert(k2, v2).insert(k1, v1));
}

/// An empty set of entries has the root of all zero bytes.
pub proof fn law_empty_root()
    ensures
        root_of(Map::empty()) == Hash32::all_zero(),
{
    assert(Map::<Hash32, Seq<u8>>::empty().dom() =~= Set::empty());
}

/// No proof is longer than a path.
pub proof fn law_proofs_are_bounded(entries: Map<Hash32, Seq<u8>>, key: Hash32)
    requires
        entries.dom().finite(),
    ensures
        proof_along(tree_of(entries), key).siblings.len() <= MAX_PROOF_DEPTH,
{
    lemma_tree_of(entries);
    lemma_proof_along(tree_of(entries), key, 0);
}

// ---------------------------------------------------------------------------
// Canonical encoding
// ---------------------------------------------------------------------------

impl Encode for ProofLeaf {
    open spec fn bytes_of(v: LeafView) -> Seq<u8> {
        match v {
            LeafView::Present { value } => u8::bytes_of(0) + wire::blob(value),
            LeafView::Absent => u8::bytes_of(1),
            LeafView::AbsentOccupied { other_key_hash, other_value } => u8::bytes_of(2) + (
            Hash32::bytes_of(other_key_hash) + wire::blob(other_value)),
        }
    }

    fn encode(&self, out: &mut Vec<u8>) {
        broadcast use wire::lemma_concat_assoc;

        match self {
            ProofLeaf::Present { value } => {
                0u8.encode(out);
                wire::encode_bytes(value, out);
            },
            ProofLeaf::Absent => {
                1u8.encode(out);
            },
            ProofLeaf::AbsentOccupied { other_key_hash, other_value } => {
                2u8.encode(out);
                other_key_hash.encode(out);
                wire::encode_bytes(other_value, out);
            },
        }
    }
}

impl Decode for ProofLeaf {
    open spec fn parse(s: Seq<u8>) -> Parsed<LeafView> {
        u8::parse(s).and_then(
            |tag: u8, rest: Seq<u8>|
                if tag == 0 {
                    wire::parse_blob(rest).map(|value: Seq<u8>| LeafView::Present { value })
                } else if tag == 1 {
                    Parsed { value: Ok(LeafView::Absent), rest }
                } else if tag == 2 {
                    Hash32::parse(rest).and_then(
                        |other_key_hash: Hash32, rest: Seq<u8>|
                            wire::parse_blob(rest).map(
                                |other_value: Seq<u8>|
                                    LeafView::AbsentOccupied { other_key_hash, other_value },
                            ),
                    )
                } else {
                    fault(CodecFault::UnknownDiscriminant { tag, what: "ProofLeaf"@ }, rest)
                },
        )
    }

    fn decode(r: &mut Reader<'_>) -> (res: Result<Self, CodecError>) {
        let tag: u8 = u8::decode(r)?;
        match tag {
            0 => {
                let value = wire::decode_bytes(r)?;
                Ok(ProofLeaf::Present { value })
            },
            1 => Ok(ProofLeaf::Absent),
            2 => {
                let other_key_hash = Hash32::decode(r)?;
                let other_value = wire::decode_bytes(r)?;
                Ok(ProofLeaf::AbsentOccupied { other_key_hash, other_value })
            },
            _ => Err(CodecError::UnknownDiscriminant { tag, what: "ProofLeaf" }),
        }
    }
}

impl Canonical for ProofLeaf {
    open spec fn valid(v: LeafView) -> bool {
        match v {
            LeafView::Present { value } => value.len() <= MAX_FIELD_LEN,
            LeafView::Absent => true,
            LeafView::AbsentOccupied { other_value, .. } => other_value.len() <= MAX_FIELD_LEN,
        }
    }

    proof fn round_trip(v: LeafView, tail: Seq<u8>) {
        broadcast use wire::lemma_concat_assoc;

        match v {
            LeafView::Present { value } => {
                u8::round_trip(0, wire::blob(value) + tail);
                wire::lemma_blob_round_trip(value, tail);
            },
            LeafView::Absent => {
                u8::round_trip(1, tail);
            },
            LeafView::AbsentOccupied { other_key_hash, other_value } => {
                u8::round_trip(
                    2,
                    Hash32::bytes_of(other_key_hash) + (wire::blob(other_value) + tail),
                );
                Hash32::round_trip(other_key_hash, wire::blob(other_value) + tail);
                wire::lemma_blob_round_trip(other_value, tail);
            },
        }
    }

    proof fn one_encoding(s: Seq<u8>) {
        broadcast use wire::lemma_concat_assoc;

        u8::one_encoding(s);
        let rest = u8::parse(s).rest;
        wire::lemma_blob_one_encoding(rest);
        Hash32::one_encoding(rest);
        wire::lemma_blob_one_encoding(Hash32::parse(rest).rest);
    }
}

/// The sentence that refuses an over-long proof.
pub open spec fn too_deep(n: nat) -> Seq<char> {
    "proof has "@ + text::decimal(n) + " siblings, maximum is 256"@
}

impl Encode for Proof {
    open spec fn bytes_of(v: ProofView) -> Seq<u8> {
        Vec::<Hash32>::bytes_of(v.siblings) + ProofLeaf::bytes_of(v.leaf)
    }

    fn encode(&self, out: &mut Vec<u8>) {
        broadcast use wire::lemma_concat_assoc;

        assert(self.siblings.deep_view() =~= self.siblings@);
        self.siblings.encode(out);
        self.leaf.encode(out);
    }
}

/// A proof arrives from an untrusted server, so the bound on its length is
/// enforced when it is decoded.
impl Decode for Proof {
    open spec fn parse(s: Seq<u8>) -> Parsed<ProofView> {
        Vec::<Hash32>::parse(s).and_then(
            |siblings: Seq<Hash32>, rest: Seq<u8>|
                if siblings.len() > MAX_PROOF_DEPTH {
                    fault(CodecFault::Invalid(too_deep(siblings.len())), rest)
                } else {
                    ProofLeaf::parse(rest).map(|leaf: LeafView| ProofView { siblings, leaf })
                },
        )
    }

    fn decode(r: &mut Reader<'_>) -> (res: Result<Self, CodecError>) {
        let siblings = Vec::<Hash32>::decode(r)?;
        assert(siblings.deep_view() =~= siblings@);
        if siblings.len() > MAX_PROOF_DEPTH {
            let mut reason = String::from_str("proof has ");
            text::push_decimal(&mut reason, siblings.len() as u128);
            reason.append(" siblings, maximum is 256");
            return Err(CodecError::Invalid(reason));
        }
        let leaf = ProofLeaf::decode(r)?;
        Ok(Proof { siblings, leaf })
    }
}

impl Canonical for Proof {
    open spec fn valid(v: ProofView) -> bool {
        v.siblings.len() <= MAX_PROOF_DEPTH && ProofLeaf::valid(v.leaf)
    }

    proof fn round_trip(v: ProofView, tail: Seq<u8>) {
        broadcast use wire::lemma_concat_assoc;

        Vec::<Hash32>::round_trip(v.siblings, ProofLeaf::bytes_of(v.leaf) + tail);
        ProofLeaf::round_trip(v.leaf, tail);
    }

    proof fn one_encoding(s: Seq<u8>) {
        broadcast use wire::lemma_concat_assoc;

        Vec::<Hash32>::one_encoding(s);
        ProofLeaf::one_encoding(Vec::<Hash32>::parse(s).rest);
    }
}

} // verus!
