//! An in-memory compact sparse Merkle tree.
//!
//! Nodes are kept, each with its hash cached, and shared between versions behind
//! [`Arc`]: inserting rebuilds only the path from the changed leaf to the root.
//! The mathematics is in [`crate::state::shape`].

use crate::crypto::hash::Hash32;
use crate::state::membership::{
    key_hash, leaf_hash, node_hash, proof_along, siblings_along, end_of, Proof, ProofLeaf,
};
use crate::state::shape::{
    agree, lemma_branch_entries, lemma_canonical_has_entries,
    lemma_canonical_is_tree_of, lemma_count_is_entries, lemma_distinct_paths_part, lookup, path,
    root_of, tree_of, Shape,
};
use std::sync::Arc;
use vstd::prelude::*;

verus! {

/// A node of the tree, shared between versions.
#[derive(Debug)]
enum TreeNode {
    /// One key's path hash bound to its value.
    Leaf { key: Hash32, value: Vec<u8>, hash: Hash32 },
    /// A branch, with at least two entries beneath it.
    Internal {
        left: Option<Arc<TreeNode>>,
        right: Option<Arc<TreeNode>>,
        hash: Hash32,
        len: usize,
    },
}

/// The smaller of a count and what a `usize` can hold.
spec fn capped(n: nat) -> nat {
    if n <= usize::MAX {
        n
    } else {
        usize::MAX as nat
    }
}

/// The shape of a possibly absent subtree.
spec fn link_shape(link: Option<Arc<TreeNode>>) -> Shape
    decreases link,
{
    match link {
        None => Shape::Empty,
        Some(node) => node.shape(),
    }
}

/// Whether every node of a possibly absent subtree caches its own hash and count.
spec fn link_cached(link: Option<Arc<TreeNode>>) -> bool
    decreases link,
{
    match link {
        None => true,
        Some(node) => node.cached(),
    }
}

impl TreeNode {
    spec fn shape(&self) -> Shape
        decreases self,
    {
        match *self {
            TreeNode::Leaf { key, value, .. } => Shape::Leaf { key, value: value@ },
            TreeNode::Internal { left, right, .. } => Shape::Branch {
                left: Box::new(link_shape(left)),
                right: Box::new(link_shape(right)),
            },
        }
    }

    spec fn cached(&self) -> bool
        decreases self,
    {
        match *self {
            TreeNode::Leaf { key, value, hash } => hash == self.shape().hash(),
            TreeNode::Internal { left, right, hash, len } => {
                &&& hash == self.shape().hash()
                &&& len == capped(self.shape().count())
                &&& link_cached(left)
                &&& link_cached(right)
            },
        }
    }

    fn hash(&self) -> (h: Hash32)
        requires
            self.cached(),
        ensures
            h == self.shape().hash(),
    {
        match self {
            TreeNode::Leaf { hash, .. } => *hash,
            TreeNode::Internal { hash, .. } => *hash,
        }
    }

    fn len(&self) -> (n: usize)
        requires
            self.cached(),
        ensures
            n == capped(self.shape().count()),
    {
        match self {
            TreeNode::Leaf { .. } => 1,
            TreeNode::Internal { len, .. } => *len,
        }
    }

    fn leaf(key: Hash32, value: Vec<u8>) -> (node: Arc<TreeNode>)
        ensures
            node.shape() == (Shape::Leaf { key, value: value@ }),
            node.cached(),
    {
        let hash = leaf_hash(key, &value);
        Arc::new(TreeNode::Leaf { key, value, hash })
    }

    fn internal(left: Option<Arc<TreeNode>>, right: Option<Arc<TreeNode>>) -> (node: Arc<TreeNode>)
        requires
            link_cached(left),
            link_cached(right),
        ensures
            node.shape() == (Shape::Branch {
                left: Box::new(link_shape(left)),
                right: Box::new(link_shape(right)),
            }),
            node.cached(),
    {
        let hash = node_hash(link_hash(&left), link_hash(&right));
        let len: usize = link_len(&left).saturating_add(link_len(&right));
        Arc::new(TreeNode::Internal { left, right, hash, len })
    }
}

/// Calls `Arc::clone`: another handle to the same node.
#[verifier::external_body]
fn share(node: &Arc<TreeNode>) -> (r: Arc<TreeNode>)
    ensures
        r == *node,
{
    Arc::clone(node)
}

/// Another handle to a possibly absent subtree.
fn share_link(link: &Option<Arc<TreeNode>>) -> (r: Option<Arc<TreeNode>>)
    ensures
        r == *link,
{
    match link {
        None => None,
        Some(node) => Some(share(node)),
    }
}

/// The hash of a possibly absent subtree.
fn link_hash(link: &Option<Arc<TreeNode>>) -> (h: Hash32)
    requires
        link_cached(*link),
    ensures
        h == link_shape(*link).hash(),
{
    match link {
        None => Hash32::zero(),
        Some(node) => node.hash(),
    }
}

/// How many entries a possibly absent subtree holds.
fn link_len(link: &Option<Arc<TreeNode>>) -> (n: usize)
    requires
        link_cached(*link),
    ensures
        n == capped(link_shape(*link).count()),
{
    match link {
        None => 0,
        Some(node) => node.len(),
    }
}

/// Put `key` into `link` at `depth`, returning the new subtree.
fn insert_at(
    link: &Option<Arc<TreeNode>>,
    key: Hash32,
    value: Vec<u8>,
    depth: usize,
) -> (r: Option<Arc<TreeNode>>)
    requires
        depth <= 256,
        link_cached(*link),
        link_shape(*link).canonical(depth as nat),
        forall|k: Hash32| #[trigger]
            link_shape(*link).entries().dom().contains(k) ==> agree(k, key, depth as nat),
    ensures
        r is Some,
        link_cached(r),
        link_shape(r).canonical(depth as nat),
        link_shape(r).entries() == link_shape(*link).entries().insert(key, value@),
    decreases *link,
{
    match link {
        None => {
            let r = Some(TreeNode::leaf(key, value));
            assert(link_shape(r).entries() =~= link_shape(*link).entries().insert(key, value@));
            r
        },
        Some(node) => match &**node {
            TreeNode::Leaf { key: existing, value: existing_value, .. } => {
                if existing.same(&key) {
                    let r = Some(TreeNode::leaf(key, value));
                    assert(link_shape(r).entries() =~= link_shape(*link).entries().insert(
                        key,
                        value@,
                    ));
                    return r;
                }
                proof {
                    assert(link_shape(*link).entries().dom().contains(*existing));
                    lemma_distinct_paths_part(*existing, key, depth as nat);
                }
                let existing_leaf = share(node);
                let new_leaf = TreeNode::leaf(key, value);
                let r = Some(split(existing_leaf, *existing, new_leaf, key, depth));
                assert(link_shape(r).entries() =~= link_shape(*link).entries().insert(key, value@));
                r
            },
            TreeNode::Internal { left, right, .. } => {
                let ghost l = link_shape(*left);
                let ghost r = link_shape(*right);
                let ghost all = link_shape(*link).entries();
                proof {
                    assert forall|k: Hash32| #[trigger] l.entries().dom().contains(k) implies agree(
                        k,
                        key,
                        depth as nat,
                    ) by {
                        assert(all.dom().contains(k));
                    }
                    assert forall|k: Hash32| #[trigger] r.entries().dom().contains(k) implies agree(
                        k,
                        key,
                        depth as nat,
                    ) by {
                        assert(all.dom().contains(k));
                    }
                    lemma_canonical_has_entries(l, depth as nat + 1);
                    lemma_canonical_has_entries(r, depth as nat + 1);
                }
                if key.bit(depth) {
                    let rebuilt = insert_at(right, key, value, depth + 1);
                    let out = Some(TreeNode::internal(share_link(left), rebuilt));
                    proof {
                        lemma_replaced_side(l, r, link_shape(rebuilt), key, value@, depth as nat);
                    }
                    out
                } else {
                    let rebuilt = insert_at(left, key, value, depth + 1);
                    let out = Some(TreeNode::internal(rebuilt, share_link(right)));
                    proof {
                        lemma_replaced_side(l, r, link_shape(rebuilt), key, value@, depth as nat);
                    }
                    out
                }
            },
        },
    }
}

/// A branch with an entry put into the side where it belongs.
proof fn lemma_replaced_side(
    l: Shape,
    r: Shape,
    rebuilt: Shape,
    key: Hash32,
    value: Seq<u8>,
    depth: nat,
)
    requires
        (Shape::Branch { left: Box::new(l), right: Box::new(r) }).canonical(depth),
        rebuilt.canonical(depth + 1),
        rebuilt.entries() == (if key.bit_at(depth as int) {
            r
        } else {
            l
        }).entries().insert(key, value),
    ensures
        ({
            let old = Shape::Branch { left: Box::new(l), right: Box::new(r) };
            let new = if key.bit_at(depth as int) {
                Shape::Branch { left: Box::new(l), right: Box::new(rebuilt) }
            } else {
                Shape::Branch { left: Box::new(rebuilt), right: Box::new(r) }
            };
            &&& new.canonical(depth)
            &&& new.entries() == old.entries().insert(key, value)
        }),
{
    let old = Shape::Branch { left: Box::new(l), right: Box::new(r) };
    lemma_canonical_has_entries(l, depth + 1);
    lemma_canonical_has_entries(r, depth + 1);
    lemma_canonical_has_entries(rebuilt, depth + 1);
    assert(rebuilt.entries().dom().contains(key));
    if key.bit_at(depth as int) {
        let new = Shape::Branch { left: Box::new(l), right: Box::new(rebuilt) };
        assert forall|k: Hash32| #[trigger] rebuilt.entries().dom().contains(k) implies k.bit_at(
            depth as int,
        ) by {
            if k != key {
                assert(r.entries().dom().contains(k));
            }
        }
        if l is Empty && rebuilt is Leaf {
            // The side that was rebuilt already held two entries.
            let (a, b) = choose|a: Hash32, b: Hash32|
                a != b && #[trigger] r.entries().dom().contains(a)
                    && #[trigger] r.entries().dom().contains(b);
            assert(rebuilt.entries().dom().contains(a) && rebuilt.entries().dom().contains(b));
        }
        assert(new.entries() =~= old.entries().insert(key, value));
    } else {
        let new = Shape::Branch { left: Box::new(rebuilt), right: Box::new(r) };
        assert forall|k: Hash32| #[trigger] rebuilt.entries().dom().contains(k) implies !k.bit_at(
            depth as int,
        ) by {
            if k != key {
                assert(l.entries().dom().contains(k));
            }
        }
        if r is Empty && rebuilt is Leaf {
            let (a, b) = choose|a: Hash32, b: Hash32|
                a != b && #[trigger] l.entries().dom().contains(a)
                    && #[trigger] l.entries().dom().contains(b);
            assert(rebuilt.entries().dom().contains(a) && rebuilt.entries().dom().contains(b));
        }
        assert(!r.entries().dom().contains(key));
        assert(new.entries() =~= old.entries().insert(key, value));
    }
}

/// Branch two leaves apart, starting at `depth`.
///
/// Walks down creating single-child branches for as long as the two paths agree,
/// then puts one leaf on each side.
fn split(
    a: Arc<TreeNode>,
    a_key: Hash32,
    b: Arc<TreeNode>,
    b_key: Hash32,
    depth: usize,
) -> (r: Arc<TreeNode>)
    requires
        depth < 256,
        a.cached(),
        b.cached(),
        a.shape() is Leaf && a.shape()->Leaf_key == a_key,
        b.shape() is Leaf && b.shape()->Leaf_key == b_key,
        a_key != b_key,
        agree(a_key, b_key, depth as nat),
    ensures
        r.cached(),
        r.shape() is Branch,
        r.shape().canonical(depth as nat),
        r.shape().entries() == a.shape().entries().insert(b_key, b.shape()->Leaf_value),
    decreases 256 - depth,
{
    let a_bit = a_key.bit(depth);
    let b_bit = b_key.bit(depth);
    let ghost whole = a.shape().entries().insert(b_key, b.shape()->Leaf_value);
    if a_bit == b_bit {
        proof {
            assert(agree(a_key, b_key, (depth + 1) as nat));
            lemma_distinct_paths_part(a_key, b_key, (depth + 1) as nat);
        }
        let deeper = split(a, a_key, b, b_key, depth + 1);
        proof {
            let d = deeper.shape();
            assert forall|k: Hash32| #[trigger] d.entries().dom().contains(k) implies k.bit_at(
                depth as int,
            ) == a_bit by {
                assert(k == a_key || k == b_key);
            }
            lemma_only_child(d, a_bit, depth as nat);
            assert(link_shape(Some(deeper)) == d);
        }
        return if a_bit {
            TreeNode::internal(None, Some(deeper))
        } else {
            TreeNode::internal(Some(deeper), None)
        };
    }
    proof {
        assert(link_shape(Some(a)) == a.shape());
        assert(link_shape(Some(b)) == b.shape());
        if a_bit {
            lemma_two_leaves(b.shape(), a.shape(), depth as nat);
        } else {
            lemma_two_leaves(a.shape(), b.shape(), depth as nat);
        }
        assert(b.shape().entries().union_prefer_right(a.shape().entries()) =~= whole);
        assert(a.shape().entries().union_prefer_right(b.shape().entries()) =~= whole);
    }
    if a_bit {
        TreeNode::internal(Some(b), Some(a))
    } else {
        TreeNode::internal(Some(a), Some(b))
    }
}

/// A branch hung under another, on the side that all its entries take.
proof fn lemma_only_child(d: Shape, right: bool, depth: nat)
    requires
        depth < 256,
        d is Branch,
        d.canonical(depth + 1),
        forall|k: Hash32| #[trigger]
            d.entries().dom().contains(k) ==> k.bit_at(depth as int) == right,
    ensures
        ({
            let s = if right {
                Shape::Branch { left: Box::new(Shape::Empty), right: Box::new(d) }
            } else {
                Shape::Branch { left: Box::new(d), right: Box::new(Shape::Empty) }
            };
            s.canonical(depth) && s.entries() == d.entries()
        }),
{
    let none = Shape::Empty;
    assert(none.entries() == Map::<Hash32, Seq<u8>>::empty());
    assert(none.canonical(depth + 1));
    assert(none.entries().union_prefer_right(d.entries()) =~= d.entries());
    assert(d.entries().union_prefer_right(none.entries()) =~= d.entries());
    if right {
        let s = Shape::Branch { left: Box::new(none), right: Box::new(d) };
        assert(s.canonical(depth));
    } else {
        let s = Shape::Branch { left: Box::new(d), right: Box::new(none) };
        assert(s.canonical(depth));
    }
}

/// Two leaves side by side, each on its own side.
proof fn lemma_two_leaves(l: Shape, r: Shape, depth: nat)
    requires
        depth < 256,
        l is Leaf,
        r is Leaf,
        !l->Leaf_key.bit_at(depth as int),
        r->Leaf_key.bit_at(depth as int),
    ensures
        (Shape::Branch { left: Box::new(l), right: Box::new(r) }).canonical(depth),
{
    assert(l.canonical(depth + 1));
    assert(r.canonical(depth + 1));
    assert forall|k: Hash32| #[trigger] l.entries().dom().contains(k) implies !k.bit_at(
        depth as int,
    ) by {
        assert(k == l->Leaf_key);
    }
    assert forall|k: Hash32| #[trigger] r.entries().dom().contains(k) implies k.bit_at(
        depth as int,
    ) by {
        assert(k == r->Leaf_key);
    }
}

/// Take `key` out of `link` at `depth`, returning the new subtree.
fn remove_at(link: &Option<Arc<TreeNode>>, key: Hash32, depth: usize) -> (r: Option<Arc<TreeNode>>)
    requires
        depth <= 256,
        link_cached(*link),
        link_shape(*link).canonical(depth as nat),
    ensures
        link_cached(r),
        link_shape(r).canonical(depth as nat),
        link_shape(r).entries() == link_shape(*link).entries().remove(key),
    decreases *link,
{
    match link {
        None => {
            assert(link_shape(None).entries() =~= link_shape(*link).entries().remove(key));
            None
        },
        Some(node) => match &**node {
            TreeNode::Leaf { key: existing, .. } => {
                if existing.same(&key) {
                    assert(link_shape(None).entries() =~= link_shape(*link).entries().remove(key));
                    None
                } else {
                    assert(link_shape(*link).entries() =~= link_shape(*link).entries().remove(key));
                    share_link(link)
                }
            },
            TreeNode::Internal { left, right, .. } => {
                let ghost l = link_shape(*left);
                let ghost r = link_shape(*right);
                let ghost all = link_shape(*link).entries();
                if key.bit(depth) {
                    let rebuilt = remove_at(right, key, depth + 1);
                    assert(!l.entries().dom().contains(key));
                    let ghost new_right = link_shape(rebuilt);
                    let out = collapse(share_link(left), rebuilt, Ghost(depth as nat));
                    assert(link_shape(out).entries() =~= all.remove(key));
                    out
                } else {
                    let rebuilt = remove_at(left, key, depth + 1);
                    assert(!r.entries().dom().contains(key));
                    let out = collapse(rebuilt, share_link(right), Ghost(depth as nat));
                    assert(link_shape(out).entries() =~= all.remove(key));
                    out
                }
            },
        },
    }
}

/// Rebuild a branch, collapsing it if it no longer holds two entries.
///
/// A subtree of one entry is that leaf, at whatever depth it sits, so a branch
/// left holding a single leaf after a removal must become that leaf.
fn collapse(
    left: Option<Arc<TreeNode>>,
    right: Option<Arc<TreeNode>>,
    Ghost(depth): Ghost<nat>,
) -> (r: Option<Arc<TreeNode>>)
    requires
        depth < 256,
        link_cached(left),
        link_cached(right),
        link_shape(left).canonical(depth + 1),
        link_shape(right).canonical(depth + 1),
        forall|k: Hash32| #[trigger]
            link_shape(left).entries().dom().contains(k) ==> !k.bit_at(depth as int),
        forall|k: Hash32| #[trigger]
            link_shape(right).entries().dom().contains(k) ==> k.bit_at(depth as int),
    ensures
        link_cached(r),
        link_shape(r).canonical(depth),
        link_shape(r).entries() == link_shape(left).entries().union_prefer_right(
            link_shape(right).entries(),
        ),
{
    let ghost whole = link_shape(left).entries().union_prefer_right(link_shape(right).entries());
    let left_is_leaf = is_leaf(&left);
    let right_is_leaf = is_leaf(&right);
    if left.is_none() && right.is_none() {
        assert(link_shape(None).entries() =~= whole);
        return None;
    }
    if left_is_leaf && right.is_none() {
        assert(link_shape(left).entries() =~= whole);
        return left;
    }
    if left.is_none() && right_is_leaf {
        assert(link_shape(right).entries() =~= whole);
        return right;
    }
    Some(TreeNode::internal(left, right))
}

fn is_leaf(link: &Option<Arc<TreeNode>>) -> (b: bool)
    ensures
        b == (link_shape(*link) is Leaf),
{
    match link {
        None => false,
        Some(node) => match &**node {
            TreeNode::Leaf { .. } => true,
            TreeNode::Internal { .. } => false,
        },
    }
}

/// Find `key` in `link`.
fn get_at(link: &Option<Arc<TreeNode>>, key: Hash32, depth: usize) -> (r: Option<&Vec<u8>>)
    requires
        depth <= 256,
        link_shape(*link).canonical(depth as nat),
    ensures
        r.deep_view() == lookup(link_shape(*link).entries(), key),
    decreases *link,
{
    match link {
        None => None,
        Some(node) => match &**node {
            TreeNode::Leaf { key: existing, value, .. } => {
                if existing.same(&key) {
                    assert(value.deep_view() =~= value@);
                    Some(value)
                } else {
                    None
                }
            },
            TreeNode::Internal { left, right, .. } => {
                proof {
                    lemma_branch_entries(link_shape(*left), link_shape(*right), depth as nat);
                }
                if key.bit(depth) {
                    get_at(right, key, depth + 1)
                } else {
                    get_at(left, key, depth + 1)
                }
            },
        },
    }
}

/// An in-memory compact sparse Merkle tree.
#[derive(Debug)]
pub struct SparseMerkleTree {
    root: Option<Arc<TreeNode>>,
}

impl View for SparseMerkleTree {
    type V = Map<Hash32, Seq<u8>>;

    /// The entries, by the hash of their key.
    closed spec fn view(&self) -> Map<Hash32, Seq<u8>> {
        link_shape(self.root).entries()
    }
}

impl Clone for SparseMerkleTree {
    fn clone(&self) -> (r: Self)
        ensures
            r == *self,
    {
        proof {
            use_type_invariant(self);
        }
        SparseMerkleTree { root: share_link(&self.root) }
    }
}

impl Default for SparseMerkleTree {
    fn default() -> (t: Self)
        ensures
            t@ == Map::<Hash32, Seq<u8>>::empty(),
    {
        Self::new()
    }
}

impl SparseMerkleTree {
    #[verifier::type_invariant]
    spec fn well_formed(&self) -> bool {
        link_cached(self.root) && link_shape(self.root).canonical(0)
    }

    /// An empty tree.
    pub fn new() -> (t: Self)
        ensures
            t@ == Map::<Hash32, Seq<u8>>::empty(),
    {
        SparseMerkleTree { root: None }
    }

    /// Number of entries, as far as a `usize` can say.
    pub fn len(&self) -> (n: usize)
        ensures
            self@.dom().finite(),
            n == (if self@.dom().len() <= usize::MAX {
                self@.dom().len()
            } else {
                usize::MAX as nat
            }),
    {
        proof {
            use_type_invariant(self);
            lemma_count_is_entries(link_shape(self.root), 0);
        }
        link_len(&self.root)
    }

    /// Whether the tree holds no entries.
    pub fn is_empty(&self) -> (b: bool)
        ensures
            b == (self@ == Map::<Hash32, Seq<u8>>::empty()),
    {
        proof {
            use_type_invariant(self);
            lemma_canonical_has_entries(link_shape(self.root), 0);
            if self.root is Some {
                assert(link_shape(self.root) !is Empty);
            }
        }
        self.root.is_none()
    }

    /// Insert or overwrite `key`.
    pub fn insert(&mut self, key: &[u8], value: Vec<u8>)
        ensures
            final(self)@ == old(self)@.insert(path(key@), value@),
    {
        self.insert_hashed(key_hash(key), value);
    }

    /// Insert under an already-hashed path, for reconstruction.
    pub(crate) fn insert_hashed(&mut self, key: Hash32, value: Vec<u8>)
        ensures
            final(self)@ == old(self)@.insert(key, value@),
    {
        proof {
            use_type_invariant(&*self);
        }
        let root = insert_at(&self.root, key, value, 0);
        self.root = root;
    }

    /// Remove `key`, returning whether it was present.
    pub fn remove(&mut self, key: &[u8]) -> (removed: bool)
        ensures
            removed == old(self)@.dom().contains(path(key@)),
            final(self)@ == old(self)@.remove(path(key@)),
    {
        proof {
            use_type_invariant(&*self);
        }
        let kh = key_hash(key);
        let removed = get_at(&self.root, kh, 0).is_some();
        let root = remove_at(&self.root, kh, 0);
        self.root = root;
        removed
    }

    /// Look up `key`.
    pub fn get(&self, key: &[u8]) -> (value: Option<&Vec<u8>>)
        ensures
            value.deep_view() == lookup(self@, path(key@)),
    {
        proof {
            use_type_invariant(self);
        }
        get_at(&self.root, key_hash(key), 0)
    }

    /// The entries as `(path hash, value)`, from left to right: in the order of
    /// the path hashes.
    pub fn entries(&self) -> (list: Vec<(Hash32, &Vec<u8>)>)
        ensures
            self@.dom().finite(),
            list.deep_view() == tree_of(self@).listed(),
    {
        proof {
            use_type_invariant(self);
            lemma_canonical_is_tree_of(link_shape(self.root));
        }
        let mut list: Vec<(Hash32, &Vec<u8>)> = Vec::new();
        list_into(&self.root, &mut list);
        assert(list.deep_view() =~= tree_of(self@).listed());
        list
    }

    /// Build a tree directly from already-hashed entries. Where a path occurs
    /// twice, the later entry counts.
    pub fn from_entries(entries: Vec<(Hash32, Vec<u8>)>) -> (t: Self)
        ensures
            t@ == inserted(Map::empty(), entries.deep_view()),
    {
        let mut tree = Self::new();
        let mut entries = entries;
        let ghost all = entries.deep_view();
        let mut i: usize = 0;
        assert(all.take(0) =~= Seq::empty());
        while i < entries.len()
            invariant
                i <= entries@.len(),
                all == entries.deep_view(),
                tree@ == inserted(Map::empty(), all.take(i as int)),
            decreases entries@.len() - i,
        {
            let key = entries[i].0;
            let value = entries[i].1.clone();
            assert(value@ =~= entries@[i as int].1@);
            assert(value@ =~= all[i as int].1);
            tree.insert_hashed(key, value);
            assert(all.take(i as int + 1).drop_last() =~= all.take(i as int));
            i += 1;
        }
        assert(all.take(all.len() as int) =~= all);
        tree
    }

    /// The current root hash.
    ///
    /// Every node caches its own hash, so this reads the top one.
    pub fn root(&self) -> (h: Hash32)
        ensures
            self@.dom().finite(),
            h == root_of(self@),
    {
        proof {
            use_type_invariant(self);
            lemma_canonical_is_tree_of(link_shape(self.root));
        }
        link_hash(&self.root)
    }

    /// The root node, for the persistence layer to walk.
    pub fn root_node(&self) -> (node: Option<NodeRef<'_>>)
        ensures
            self@.dom().finite(),
            node_shape(node) == tree_of(self@),
    {
        proof {
            use_type_invariant(self);
            lemma_canonical_is_tree_of(link_shape(self.root));
        }
        match &self.root {
            None => None,
            Some(node) => Some(NodeRef(&**node)),
        }
    }

    /// Build a proof for `key`, whether present or absent.
    pub fn prove(&self, key: &[u8]) -> (p: Proof)
        ensures
            self@.dom().finite(),
            p.deep_view() == proof_along(tree_of(self@), path(key@)),
    {
        proof {
            use_type_invariant(self);
            lemma_canonical_is_tree_of(link_shape(self.root));
        }
        let kh = key_hash(key);
        let mut siblings: Vec<Hash32> = Vec::new();
        let leaf = prove_at(&self.root, kh, 0, &mut siblings);
        assert(siblings@ =~= siblings_along(tree_of(self@), kh, 0));
        Proof { siblings, leaf }
    }
}

/// Entries after inserting a list of them, one after another.
pub open spec fn inserted(
    entries: Map<Hash32, Seq<u8>>,
    list: Seq<(Hash32, Seq<u8>)>,
) -> Map<Hash32, Seq<u8>>
    decreases list.len(),
{
    if list.len() == 0 {
        entries
    } else {
        inserted(entries, list.drop_last()).insert(list.last().0, list.last().1)
    }
}

/// Append a subtree's entries from left to right.
fn list_into<'a>(link: &'a Option<Arc<TreeNode>>, out: &mut Vec<(Hash32, &'a Vec<u8>)>)
    ensures
        final(out).deep_view() == old(out).deep_view() + link_shape(*link).listed(),
    decreases *link,
{
    match link {
        None => {
            assert(out.deep_view() =~= old(out).deep_view() + Seq::empty());
        },
        Some(node) => match &**node {
            TreeNode::Leaf { key, value, .. } => {
                out.push((*key, value));
                assert(value.deep_view() =~= value@);
                assert(out.deep_view() =~= old(out).deep_view() + seq![(*key, value@)]);
            },
            TreeNode::Internal { left, right, .. } => {
                list_into(left, out);
                list_into(right, out);
                assert(out.deep_view() =~= old(out).deep_view() + link_shape(*link).listed());
            },
        },
    }
}

/// Walk down the path of `key`, collecting siblings.
fn prove_at(
    link: &Option<Arc<TreeNode>>,
    key: Hash32,
    depth: usize,
    siblings: &mut Vec<Hash32>,
) -> (leaf: ProofLeaf)
    requires
        depth <= 256,
        link_cached(*link),
        link_shape(*link).canonical(depth as nat),
    ensures
        final(siblings)@ == old(siblings)@ + siblings_along(link_shape(*link), key, depth as nat),
        leaf.deep_view() == end_of(link_shape(*link), key, depth as nat),
    decreases *link,
{
    match link {
        None => {
            assert(siblings@ =~= old(siblings)@ + Seq::empty());
            ProofLeaf::Absent
        },
        Some(node) => match &**node {
            TreeNode::Leaf { key: k, value, .. } => {
                assert(siblings@ =~= old(siblings)@ + Seq::empty());
                let copy = value.clone();
                assert(copy@ =~= value@);
                if k.same(&key) {
                    ProofLeaf::Present { value: copy }
                } else {
                    ProofLeaf::AbsentOccupied { other_key_hash: *k, other_value: copy }
                }
            },
            TreeNode::Internal { left, right, .. } => {
                if key.bit(depth) {
                    siblings.push(link_hash(left));
                    let leaf = prove_at(right, key, depth + 1, siblings);
                    assert(siblings@ =~= old(siblings)@ + siblings_along(
                        link_shape(*link),
                        key,
                        depth as nat,
                    ));
                    leaf
                } else {
                    siblings.push(link_hash(right));
                    let leaf = prove_at(left, key, depth + 1, siblings);
                    assert(siblings@ =~= old(siblings)@ + siblings_along(
                        link_shape(*link),
                        key,
                        depth as nat,
                    ));
                    leaf
                }
            },
        },
    }
}

/// A borrowed view of one node, for the persistence layer.
#[derive(Debug, Clone, Copy)]
pub struct NodeRef<'a>(&'a TreeNode);

/// What a [`NodeRef`] turned out to be.
#[derive(Debug)]
pub enum NodeKind<'a> {
    /// One key bound to one value.
    Leaf {
        /// The key's path hash.
        key_hash: Hash32,
        /// The stored value.
        value: &'a Vec<u8>,
    },
    /// A branch and its two sides, either of which may be empty.
    Internal {
        /// The left subtree.
        left: Option<NodeRef<'a>>,
        /// The right subtree.
        right: Option<NodeRef<'a>>,
    },
}

/// The shape of a possibly absent node.
pub open spec fn node_shape(node: Option<NodeRef<'_>>) -> Shape {
    match node {
        None => Shape::Empty,
        Some(n) => n.shape(),
    }
}

impl<'a> NodeRef<'a> {
    #[verifier::type_invariant]
    spec fn well_formed(&self) -> bool {
        self.0.cached()
    }

    /// The subtree under this node.
    pub closed spec fn shape(&self) -> Shape {
        self.0.shape()
    }

    /// This node's cached hash.
    pub fn hash(&self) -> (h: Hash32)
        ensures
            h == self.shape().hash(),
            !(self.shape() is Empty),
    {
        proof {
            use_type_invariant(self);
        }
        self.0.hash()
    }

    /// What kind of node this is.
    pub fn kind(&self) -> (k: NodeKind<'a>)
        ensures
            match k {
                NodeKind::Leaf { key_hash, value } => self.shape() == (Shape::Leaf {
                    key: key_hash,
                    value: value@,
                }),
                NodeKind::Internal { left, right } => self.shape() == (Shape::Branch {
                    left: Box::new(node_shape(left)),
                    right: Box::new(node_shape(right)),
                }),
            },
    {
        proof {
            use_type_invariant(self);
        }
        match self.0 {
            TreeNode::Leaf { key, value, .. } => NodeKind::Leaf { key_hash: *key, value },
            TreeNode::Internal { left, right, .. } => {
                let l = match left {
                    None => None,
                    Some(node) => Some(NodeRef(&**node)),
                };
                let r = match right {
                    None => None,
                    Some(node) => Some(NodeRef(&**node)),
                };
                NodeKind::Internal { left: l, right: r }
            },
        }
    }
}

} // verus!
