//! The mathematics of the compact sparse Merkle tree.
//!
//! Conceptually the tree has one slot for each of the 2^256 hashed keys. It is
//! compacted: an empty subtree is a constant, and a subtree with one entry is a
//! single leaf, at whatever depth. [`Shape`] is such a tree; [`Shape::canonical`]
//! says that it is compacted and that every entry lies on its own path. There is
//! exactly one canonical shape for any set of entries
//! ([`law_shape_is_determined_by_entries`]), so the root does not depend on the
//! history that led to it.
//!
//! ```text
//! empty        = 0x00..00
//! leaf(k, v)   = H_leaf( key_hash || value_hash )
//! node(l, r)   = H_node( left     || right     )
//! ```

use crate::crypto::hash::{
    byte_bit, digest, lemma_bits_determine_byte, lemma_bits_determine_hash, Domain, Hash32,
};
use crate::primitives::order::{lemma_lex_first_difference, lex_less};
use vstd::prelude::*;

verus! {

/// The digest of a leaf that binds a key's path to a value.
pub open spec fn leaf_digest(key: Hash32, value: Seq<u8>) -> Hash32 {
    digest(Domain::StateLeaf, key.0@ + digest(Domain::StateLeaf, value).0@)
}

/// The digest of a branch.
pub open spec fn node_digest(left: Hash32, right: Hash32) -> Hash32 {
    digest(Domain::StateNode, left.0@ + right.0@)
}

/// The path of a raw key through the tree.
pub open spec fn path(key: Seq<u8>) -> Hash32 {
    digest(Domain::StateLeaf, key)
}

/// Whether two paths agree on their first `depth` steps.
pub open spec fn agree(a: Hash32, b: Hash32, depth: nat) -> bool {
    forall|i: int| 0 <= i < depth ==> #[trigger] a.bit_at(i) == b.bit_at(i)
}

/// A compact sparse Merkle tree.
pub enum Shape {
    Empty,
    Leaf { key: Hash32, value: Seq<u8> },
    Branch { left: Box<Shape>, right: Box<Shape> },
}

impl Shape {
    /// The digest that commits to the whole tree.
    pub open spec fn hash(self) -> Hash32
        decreases self,
    {
        match self {
            Shape::Empty => Hash32::all_zero(),
            Shape::Leaf { key, value } => leaf_digest(key, value),
            Shape::Branch { left, right } => node_digest(left.hash(), right.hash()),
        }
    }

    /// The entries of the tree, by path.
    pub open spec fn entries(self) -> Map<Hash32, Seq<u8>>
        decreases self,
    {
        match self {
            Shape::Empty => Map::empty(),
            Shape::Leaf { key, value } => Map::empty().insert(key, value),
            Shape::Branch { left, right } => left.entries().union_prefer_right(right.entries()),
        }
    }

    /// The entries of the tree from left to right.
    pub open spec fn listed(self) -> Seq<(Hash32, Seq<u8>)>
        decreases self,
    {
        match self {
            Shape::Empty => Seq::empty(),
            Shape::Leaf { key, value } => seq![(key, value)],
            Shape::Branch { left, right } => left.listed() + right.listed(),
        }
    }

    /// How many entries the tree has.
    pub open spec fn count(self) -> nat
        decreases self,
    {
        match self {
            Shape::Empty => 0,
            Shape::Leaf { .. } => 1,
            Shape::Branch { left, right } => left.count() + right.count(),
        }
    }

    /// Whether a tree that hangs `depth` steps below the root is compacted, with
    /// every entry on its own path.
    pub open spec fn canonical(self, depth: nat) -> bool
        decreases self,
    {
        match self {
            Shape::Empty => true,
            Shape::Leaf { .. } => true,
            Shape::Branch { left, right } => {
                &&& depth < 256
                &&& !(*left is Empty && *right is Empty)
                &&& !(*left is Leaf && *right is Empty)
                &&& !(*left is Empty && *right is Leaf)
                &&& forall|k: Hash32| #[trigger]
                    left.entries().dom().contains(k) ==> !k.bit_at(depth as int)
                &&& forall|k: Hash32| #[trigger]
                    right.entries().dom().contains(k) ==> k.bit_at(depth as int)
                &&& left.canonical(depth + 1)
                &&& right.canonical(depth + 1)
            },
        }
    }
}

/// What is stored under a path, if anything.
pub open spec fn lookup(entries: Map<Hash32, Seq<u8>>, key: Hash32) -> Option<Seq<u8>> {
    if entries.dom().contains(key) {
        Some(entries[key])
    } else {
        None
    }
}

/// A canonical tree that is not empty has an entry, and a branch has two.
pub proof fn lemma_canonical_has_entries(s: Shape, depth: nat)
    requires
        s.canonical(depth),
    ensures
        !(s is Empty) ==> exists|k: Hash32| #[trigger] s.entries().dom().contains(k),
        s is Branch ==> exists|k: Hash32, l: Hash32|
            k != l && #[trigger] s.entries().dom().contains(k)
                && #[trigger] s.entries().dom().contains(l),
    decreases s,
{
    match s {
        Shape::Empty => {},
        Shape::Leaf { key, value } => {
            assert(s.entries().dom().contains(key));
        },
        Shape::Branch { left, right } => {
            lemma_canonical_has_entries(*left, depth + 1);
            lemma_canonical_has_entries(*right, depth + 1);
            assert forall|k: Hash32| left.entries().dom().contains(k)
                || right.entries().dom().contains(k) implies #[trigger] s.entries().dom().contains(
                k,
            ) by {}
            if !(*left is Empty) && !(*right is Empty) {
                let k = choose|k: Hash32| #[trigger] left.entries().dom().contains(k);
                let l = choose|l: Hash32| #[trigger] right.entries().dom().contains(l);
                assert(s.entries().dom().contains(k) && s.entries().dom().contains(l));
                assert(k != l);
            } else if *left is Empty {
                let (k, l) = choose|k: Hash32, l: Hash32|
                    k != l && #[trigger] right.entries().dom().contains(k)
                        && #[trigger] right.entries().dom().contains(l);
                assert(s.entries().dom().contains(k) && s.entries().dom().contains(l));
            } else {
                let (k, l) = choose|k: Hash32, l: Hash32|
                    k != l && #[trigger] left.entries().dom().contains(k)
                        && #[trigger] left.entries().dom().contains(l);
                assert(s.entries().dom().contains(k) && s.entries().dom().contains(l));
            }
        },
    }
}

/// The entries of a branch, side by side.
pub proof fn lemma_branch_entries(left: Shape, right: Shape, depth: nat)
    requires
        forall|k: Hash32| #[trigger] left.entries().dom().contains(k) ==> !k.bit_at(depth as int),
        forall|k: Hash32| #[trigger] right.entries().dom().contains(k) ==> k.bit_at(depth as int),
    ensures
        ({
            let s = Shape::Branch { left: Box::new(left), right: Box::new(right) };
            forall|k: Hash32|
                #[trigger] lookup(s.entries(), k) == (if k.bit_at(depth as int) {
                    lookup(right.entries(), k)
                } else {
                    lookup(left.entries(), k)
                })
        }),
{
}

/// Entries are determined by what is stored under each path.
pub proof fn lemma_same_lookup(a: Map<Hash32, Seq<u8>>, b: Map<Hash32, Seq<u8>>)
    requires
        forall|k: Hash32| #[trigger] lookup(a, k) == lookup(b, k),
    ensures
        a == b,
{
    assert forall|k: Hash32| #[trigger] a.dom().contains(k) == b.dom().contains(k) by {
        assert(lookup(a, k) == lookup(b, k));
    }
    assert forall|k: Hash32| #[trigger] a.dom().contains(k) implies a[k] == b[k] by {
        assert(lookup(a, k) == lookup(b, k));
    }
    assert(a =~= b);
}

/// There is exactly one canonical tree for any set of entries: the tree, and so
/// its root, is the same in whatever order the entries came and went.
pub proof fn law_shape_is_determined_by_entries(a: Shape, b: Shape, depth: nat)
    requires
        a.canonical(depth),
        b.canonical(depth),
        a.entries() == b.entries(),
    ensures
        a == b,
        a.hash() == b.hash(),
    decreases a,
{
    lemma_canonical_has_entries(a, depth);
    lemma_canonical_has_entries(b, depth);
    match a {
        Shape::Empty => {
            assert(a.entries().dom() =~= Set::empty());
        },
        Shape::Leaf { key, value } => {
            assert(a.entries().dom() =~= set![key]);
            assert(b.entries().dom().contains(key));
            match b {
                Shape::Leaf { key: k2, value: v2 } => {
                    assert(b.entries().dom() =~= set![k2]);
                    assert(a.entries()[key] == value);
                    assert(b.entries()[k2] == v2);
                },
                _ => {},
            }
        },
        Shape::Branch { left, right } => {
            match b {
                Shape::Empty => {
                    assert(b.entries().dom() =~= Set::empty());
                },
                Shape::Leaf { key, value } => {
                    assert(b.entries().dom() =~= set![key]);
                },
                Shape::Branch { left: l2, right: r2 } => {
                    lemma_branch_entries(*left, *right, depth);
                    lemma_branch_entries(*l2, *r2, depth);
                    assert forall|k: Hash32| #[trigger]
                        lookup(left.entries(), k) == lookup(l2.entries(), k) by {
                        assert(lookup(a.entries(), k) == lookup(b.entries(), k));
                        assert(left.entries().dom().contains(k) ==> !k.bit_at(depth as int));
                        assert(l2.entries().dom().contains(k) ==> !k.bit_at(depth as int));
                    }
                    lemma_same_lookup(left.entries(), l2.entries());
                    assert forall|k: Hash32| #[trigger]
                        lookup(right.entries(), k) == lookup(r2.entries(), k) by {
                        assert(lookup(a.entries(), k) == lookup(b.entries(), k));
                        assert(right.entries().dom().contains(k) ==> k.bit_at(depth as int));
                        assert(r2.entries().dom().contains(k) ==> k.bit_at(depth as int));
                    }
                    lemma_same_lookup(right.entries(), r2.entries());
                    law_shape_is_determined_by_entries(*left, *l2, depth + 1);
                    law_shape_is_determined_by_entries(*right, *r2, depth + 1);
                },
            }
        },
    }
}

/// The count of a canonical tree is the number of its entries.
pub proof fn lemma_count_is_entries(s: Shape, depth: nat)
    requires
        s.canonical(depth),
    ensures
        s.entries().dom().finite(),
        s.entries().dom().len() == s.count(),
    decreases s,
{
    match s {
        Shape::Empty => {
            assert(s.entries().dom() =~= Set::empty());
        },
        Shape::Leaf { key, value } => {
            assert(s.entries().dom() =~= Set::empty().insert(key));
        },
        Shape::Branch { left, right } => {
            lemma_count_is_entries(*left, depth + 1);
            lemma_count_is_entries(*right, depth + 1);
            assert(s.entries().dom() =~= left.entries().dom().union(right.entries().dom()));
            assert(left.entries().dom().disjoint(right.entries().dom())) by {
                assert forall|k: Hash32| !(left.entries().dom().contains(k)
                    && right.entries().dom().contains(k)) by {}
            }
            vstd::set_lib::lemma_set_disjoint_lens(left.entries().dom(), right.entries().dom());
        },
    }
}

/// Distinct paths that agree on `depth` steps have a step left to differ in.
pub proof fn lemma_distinct_paths_part(a: Hash32, b: Hash32, depth: nat)
    requires
        a != b,
        agree(a, b, depth),
    ensures
        depth < 256,
{
    if depth >= 256 {
        assert forall|i: int| 0 <= i < 256 implies #[trigger] a.bit_at(i) == b.bit_at(i) by {}
        lemma_bits_determine_hash(a, b);
    }
}

// ---------------------------------------------------------------------------
// The tree of a set of entries
// ---------------------------------------------------------------------------

/// The entries that turn right, or left, at a step of their path.
pub open spec fn side(
    entries: Map<Hash32, Seq<u8>>,
    depth: nat,
    right: bool,
) -> Map<Hash32, Seq<u8>> {
    Map::new(
        |k: Hash32| entries.dom().contains(k) && k.bit_at(depth as int) == right,
        |k: Hash32| entries[k],
    )
}

/// The tree of a set of entries, `depth` steps below the root: nothing for none, a
/// leaf for one, and otherwise a branch that parts them by their next step.
pub open spec fn subtree_of(entries: Map<Hash32, Seq<u8>>, depth: nat) -> Shape
    decreases 256 - depth,
{
    if entries.dom().len() == 0 {
        Shape::Empty
    } else if entries.dom().len() == 1 {
        let key = entries.dom().choose();
        Shape::Leaf { key, value: entries[key] }
    } else if depth >= 256 {
        Shape::Empty
    } else {
        Shape::Branch {
            left: Box::new(subtree_of(side(entries, depth, false), depth + 1)),
            right: Box::new(subtree_of(side(entries, depth, true), depth + 1)),
        }
    }
}

/// The tree of a set of entries.
pub open spec fn tree_of(entries: Map<Hash32, Seq<u8>>) -> Shape {
    subtree_of(entries, 0)
}

/// The root that commits to a set of entries.
pub open spec fn root_of(entries: Map<Hash32, Seq<u8>>) -> Hash32 {
    tree_of(entries).hash()
}

proof fn lemma_subtree_of(entries: Map<Hash32, Seq<u8>>, depth: nat)
    requires
        entries.dom().finite(),
        depth <= 256,
        forall|k: Hash32, l: Hash32| #[trigger]
            entries.dom().contains(k) && #[trigger] entries.dom().contains(l) ==> agree(
                k,
                l,
                depth,
            ),
    ensures
        subtree_of(entries, depth).canonical(depth),
        subtree_of(entries, depth).entries() == entries,
    decreases 256 - depth,
{
    let dom = entries.dom();
    let s = subtree_of(entries, depth);
    if dom.len() == 0 {
        assert(dom =~= Set::empty());
        assert(s.entries() =~= entries);
    } else if dom.len() == 1 {
        let key = dom.choose();
        assert(dom.contains(key));
        assert(dom.remove(key).len() == 0);
        assert(dom.remove(key) =~= Set::empty());
        assert forall|k: Hash32| dom.contains(k) implies k == key by {
            if k != key {
                assert(dom.remove(key).contains(k));
            }
        }
        assert(s.entries() =~= entries);
    } else {
        let a = dom.choose();
        assert(dom.contains(a));
        assert(dom.remove(a).len() > 0);
        let b = dom.remove(a).choose();
        assert(dom.remove(a).contains(b));
        lemma_distinct_paths_part(a, b, depth);
        let left = side(entries, depth, false);
        let right = side(entries, depth, true);
        assert(left.dom() =~= dom.filter(|k: Hash32| k.bit_at(depth as int) == false));
        assert(right.dom() =~= dom.filter(|k: Hash32| k.bit_at(depth as int) == true));
        assert forall|k: Hash32, l: Hash32| #[trigger]
            left.dom().contains(k) && #[trigger] left.dom().contains(l) implies agree(
            k,
            l,
            depth + 1,
        ) by {
            assert(dom.contains(k) && dom.contains(l));
            assert(agree(k, l, depth));
        }
        assert forall|k: Hash32, l: Hash32| #[trigger]
            right.dom().contains(k) && #[trigger] right.dom().contains(l) implies agree(
            k,
            l,
            depth + 1,
        ) by {
            assert(dom.contains(k) && dom.contains(l));
            assert(agree(k, l, depth));
        }
        lemma_subtree_of(left, depth + 1);
        lemma_subtree_of(right, depth + 1);
        let l = subtree_of(left, depth + 1);
        let r = subtree_of(right, depth + 1);
        assert(s.entries() =~= entries);
        assert(dom.contains(a) && dom.contains(b) && a != b);
        assert(left.dom().contains(a) || right.dom().contains(a));
        assert(left.dom().contains(b) || right.dom().contains(b));
        if l is Leaf {
            assert(l.entries().dom() =~= set![l->Leaf_key]);
        }
        if r is Leaf {
            assert(r.entries().dom() =~= set![r->Leaf_key]);
        }
        if l is Empty {
            assert(l.entries().dom() =~= Set::empty());
        }
        if r is Empty {
            assert(r.entries().dom() =~= Set::empty());
        }
    }
}

/// Every finite set of entries has a canonical tree.
pub proof fn lemma_tree_of(entries: Map<Hash32, Seq<u8>>)
    requires
        entries.dom().finite(),
    ensures
        tree_of(entries).canonical(0),
        tree_of(entries).entries() == entries,
{
    lemma_subtree_of(entries, 0);
}

/// A canonical tree is the tree of its entries.
pub proof fn lemma_canonical_is_tree_of(s: Shape)
    requires
        s.canonical(0),
    ensures
        s.entries().dom().finite(),
        s == tree_of(s.entries()),
{
    lemma_count_is_entries(s, 0);
    lemma_tree_of(s.entries());
    law_shape_is_determined_by_entries(s, tree_of(s.entries()), 0);
}

// ---------------------------------------------------------------------------
// Order of the entries
// ---------------------------------------------------------------------------

/// Whether one path lies to the left of another: where they part, it goes left.
pub open spec fn precedes(a: Hash32, b: Hash32) -> bool {
    exists|i: int|
        0 <= i < 256 && agree(a, b, i as nat) && !(#[trigger] a.bit_at(i)) && b.bit_at(i)
}

/// The listing holds exactly the entries.
pub proof fn law_listing_is_the_entries(s: Shape, depth: nat)
    requires
        s.canonical(depth),
    ensures
        s.listed().len() == s.count(),
        forall|k: Hash32, v: Seq<u8>| #[trigger]
            s.listed().contains((k, v)) <==> lookup(s.entries(), k) == Some(v),
    decreases s,
{
    match s {
        Shape::Empty => {},
        Shape::Leaf { key, value } => {
            assert forall|k: Hash32, v: Seq<u8>| #[trigger]
                s.listed().contains((k, v)) <==> lookup(s.entries(), k) == Some(v) by {
                if k == key && v == value {
                    assert(s.listed()[0] == (k, v));
                }
            }
        },
        Shape::Branch { left, right } => {
            law_listing_is_the_entries(*left, depth + 1);
            law_listing_is_the_entries(*right, depth + 1);
            lemma_branch_entries(*left, *right, depth);
            let l = left.listed();
            let r = right.listed();
            assert forall|k: Hash32, v: Seq<u8>| #[trigger]
                s.listed().contains((k, v)) <==> lookup(s.entries(), k) == Some(v) by {
                assert((l + r).contains((k, v)) <==> l.contains((k, v)) || r.contains((k, v))) by {
                    if l.contains((k, v)) {
                        let j = choose|j: int| 0 <= j < l.len() && l[j] == (k, v);
                        assert((l + r)[j] == (k, v));
                    }
                    if r.contains((k, v)) {
                        let j = choose|j: int| 0 <= j < r.len() && r[j] == (k, v);
                        assert((l + r)[l.len() + j] == (k, v));
                    }
                }
                assert(lookup(left.entries(), k) is Some ==> !k.bit_at(depth as int)) by {
                    assert(left.entries().dom().contains(k) ==> !k.bit_at(depth as int));
                }
                assert(lookup(right.entries(), k) is Some ==> k.bit_at(depth as int)) by {
                    assert(right.entries().dom().contains(k) ==> k.bit_at(depth as int));
                }
                assert(l.contains((k, v)) <==> lookup(left.entries(), k) == Some(v));
                assert(r.contains((k, v)) <==> lookup(right.entries(), k) == Some(v));
            }
        },
    }
}

/// The listing runs from left to right: ascending in the path.
pub proof fn law_listing_is_ascending(s: Shape, depth: nat)
    requires
        s.canonical(depth),
        forall|k: Hash32, l: Hash32| #[trigger]
            s.entries().dom().contains(k) && #[trigger] s.entries().dom().contains(l) ==> agree(
                k,
                l,
                depth,
            ),
    ensures
        forall|i: int, j: int|
            0 <= i < j < s.listed().len() ==> precedes(
                #[trigger] s.listed()[i].0,
                #[trigger] s.listed()[j].0,
            ),
    decreases s,
{
    match s {
        Shape::Empty => {},
        Shape::Leaf { key, value } => {},
        Shape::Branch { left, right } => {
            let l = left.listed();
            let r = right.listed();
            assert forall|k: Hash32, m: Hash32| #[trigger]
                left.entries().dom().contains(k) && #[trigger] left.entries().dom().contains(
                    m,
                ) implies agree(k, m, depth + 1) by {
                assert(s.entries().dom().contains(k) && s.entries().dom().contains(m));
                assert(agree(k, m, depth));
            }
            assert forall|k: Hash32, m: Hash32| #[trigger]
                right.entries().dom().contains(k) && #[trigger] right.entries().dom().contains(
                    m,
                ) implies agree(k, m, depth + 1) by {
                assert(s.entries().dom().contains(k) && s.entries().dom().contains(m));
                assert(agree(k, m, depth));
            }
            law_listing_is_ascending(*left, depth + 1);
            law_listing_is_ascending(*right, depth + 1);
            law_listing_is_the_entries(*left, depth + 1);
            law_listing_is_the_entries(*right, depth + 1);
            assert forall|i: int, j: int| 0 <= i < j < s.listed().len() implies precedes(
                #[trigger] s.listed()[i].0,
                #[trigger] s.listed()[j].0,
            ) by {
                let a = s.listed()[i];
                let b = s.listed()[j];
                if j < l.len() {
                    assert(a == l[i] && b == l[j]);
                } else if i >= l.len() {
                    assert(a == r[i - l.len()] && b == r[j - l.len()]);
                } else {
                    assert(a == l[i] && b == r[j - l.len()]);
                    assert(l.contains((a.0, a.1)));
                    assert(r.contains((b.0, b.1)));
                    assert(left.entries().dom().contains(a.0));
                    assert(right.entries().dom().contains(b.0));
                    assert(s.entries().dom().contains(a.0) && s.entries().dom().contains(b.0));
                    assert(!a.0.bit_at(depth as int) && b.0.bit_at(depth as int));
                    assert(agree(a.0, b.0, depth as nat));
                }
            }
        },
    }
}

/// Where two bytes first differ, the one with the clear bit is the smaller.
proof fn lemma_byte_order(a: u8, b: u8, i: int)
    requires
        0 <= i < 8,
        forall|j: int| 0 <= j < i ==> byte_bit(a, j) == byte_bit(b, j),
        !byte_bit(a, i),
        byte_bit(b, i),
    ensures
        a < b,
{
    assert(i > 0 ==> byte_bit(a, 0) == byte_bit(b, 0));
    assert(i > 1 ==> byte_bit(a, 1) == byte_bit(b, 1));
    assert(i > 2 ==> byte_bit(a, 2) == byte_bit(b, 2));
    assert(i > 3 ==> byte_bit(a, 3) == byte_bit(b, 3));
    assert(i > 4 ==> byte_bit(a, 4) == byte_bit(b, 4));
    assert(i > 5 ==> byte_bit(a, 5) == byte_bit(b, 5));
    assert(i > 6 ==> byte_bit(a, 6) == byte_bit(b, 6));
    let n = i as u8;
    assert(a < b) by (bit_vector)
        requires
            n < 8,
            n > 0 ==> (a & 128 != 0) == (b & 128 != 0),
            n > 1 ==> (a & 64 != 0) == (b & 64 != 0),
            n > 2 ==> (a & 32 != 0) == (b & 32 != 0),
            n > 3 ==> (a & 16 != 0) == (b & 16 != 0),
            n > 4 ==> (a & 8 != 0) == (b & 8 != 0),
            n > 5 ==> (a & 4 != 0) == (b & 4 != 0),
            n > 6 ==> (a & 2 != 0) == (b & 2 != 0),
            n == 0 ==> a & 128 == 0 && b & 128 != 0,
            n == 1 ==> a & 64 == 0 && b & 64 != 0,
            n == 2 ==> a & 32 == 0 && b & 32 != 0,
            n == 3 ==> a & 16 == 0 && b & 16 != 0,
            n == 4 ==> a & 8 == 0 && b & 8 != 0,
            n == 5 ==> a & 4 == 0 && b & 4 != 0,
            n == 6 ==> a & 2 == 0 && b & 2 != 0,
            n == 7 ==> a & 1 == 0 && b & 1 != 0,
    ;
}

/// Going left is coming first: the order of paths is the order of their bytes.
pub proof fn law_path_order_is_byte_order(a: Hash32, b: Hash32)
    requires
        precedes(a, b),
    ensures
        lex_less(a.0@, b.0@),
{
    let i = choose|i: int|
        0 <= i < 256 && agree(a, b, i as nat) && !(#[trigger] a.bit_at(i)) && b.bit_at(i);
    let k = i / 8;
    assert forall|m: int| 0 <= m < k implies a.0@[m] == b.0@[m] by {
        assert forall|j: int| 0 <= j < 8 implies byte_bit(a.0@[m], j) == byte_bit(
            b.0@[m],
            j,
        ) by {
            assert(a.bit_at(8 * m + j) == b.bit_at(8 * m + j));
        }
        lemma_bits_determine_byte(a.0@[m], b.0@[m]);
    }
    assert(a.0@.take(k) =~= b.0@.take(k));
    assert forall|j: int| 0 <= j < i % 8 implies byte_bit(a.0@[k], j) == byte_bit(b.0@[k], j) by {
        assert(a.bit_at(8 * k + j) == b.bit_at(8 * k + j));
    }
    lemma_byte_order(a.0@[k], b.0@[k], i % 8);
    lemma_lex_first_difference(a.0@, b.0@, k);
}

} // verus!
