//! Content-addressed persistence for the state tree.
//!
//! Every node of the tree is stored under its own hash. Consecutive versions of
//! the tree share every untouched subtree, so committing a version writes only
//! what changed, and the state at any root stays addressable as long as its nodes
//! are kept.

use crate::crypto::hash::{clash_free, Hash32, Preimage};
use crate::primitives::codec::{
    decode_exact, fault, law_decode_exact_inverts_encode, parse_exact, Canonical, CodecError,
    CodecFault, Decode, Encode, Parsed, Reader, MAX_FIELD_LEN,
};
use crate::primitives::wire;
use crate::state::membership::{
    hashed_in, key_hash, leaf_hash, lemma_hash_binds_shape, lemma_top_preimage, node_hash,
    top_preimage,
};
use crate::state::shape::{leaf_digest, lemma_tree_of, node_digest, path, tree_of, Shape};
use crate::state::smt::{inserted, node_shape, NodeKind, NodeRef, SparseMerkleTree};
use crate::state::sorted::{ascending, map_of_list, SortedRecords};
use vstd::prelude::*;

verus! {

/// A materialised node of the state tree.
#[derive(Debug, Clone, PartialEq, Eq)]
pub enum Node {
    /// A leaf binding one key's path hash to its value.
    Leaf {
        /// The key's path hash.
        key_hash: Hash32,
        /// The stored value.
        value: Vec<u8>,
    },
    /// An internal node naming its two children by hash. A child of all zero
    /// bytes means that side holds nothing.
    Internal {
        /// Left child hash.
        left: Hash32,
        /// Right child hash.
        right: Hash32,
    },
}

/// The mathematical view of a [`Node`].
pub enum NodeView {
    Leaf { key_hash: Hash32, value: Seq<u8> },
    Internal { left: Hash32, right: Hash32 },
}

impl DeepView for Node {
    type V = NodeView;

    open spec fn deep_view(&self) -> NodeView {
        match *self {
            Node::Leaf { key_hash, value } => NodeView::Leaf { key_hash, value: value@ },
            Node::Internal { left, right } => NodeView::Internal { left, right },
        }
    }
}

impl NodeView {
    /// The hash a node is stored under.
    pub open spec fn hash(self) -> Hash32 {
        match self {
            NodeView::Leaf { key_hash, value } => leaf_digest(key_hash, value),
            NodeView::Internal { left, right } => node_digest(left, right),
        }
    }
}

impl Node {
    /// The hash this node is stored under.
    pub fn hash(&self) -> (h: Hash32)
        ensures
            h == self.deep_view().hash(),
    {
        match self {
            Node::Leaf { key_hash, value } => leaf_hash(*key_hash, value),
            Node::Internal { left, right } => node_hash(*left, *right),
        }
    }
}

impl Encode for Node {
    open spec fn bytes_of(v: NodeView) -> Seq<u8> {
        match v {
            NodeView::Leaf { key_hash, value } => u8::bytes_of(0) + <(Hash32, Vec<u8>)>::bytes_of(
                (key_hash, value),
            ),
            NodeView::Internal { left, right } => u8::bytes_of(1) + <(Hash32, Hash32)>::bytes_of(
                (left, right),
            ),
        }
    }

    fn encode(&self, out: &mut Vec<u8>) {
        broadcast use wire::lemma_concat_assoc;

        match self {
            Node::Leaf { key_hash, value } => {
                assert(value.deep_view() =~= value@);
                0u8.encode(out);
                key_hash.encode(out);
                value.encode(out);
            },
            Node::Internal { left, right } => {
                1u8.encode(out);
                left.encode(out);
                right.encode(out);
            },
        }
    }
}

impl Decode for Node {
    open spec fn parse(s: Seq<u8>) -> Parsed<NodeView> {
        u8::parse(s).and_then(
            |tag: u8, rest: Seq<u8>|
                if tag == 0 {
                    <(Hash32, Vec<u8>)>::parse(rest).map(
                        |v: (Hash32, Seq<u8>)| NodeView::Leaf { key_hash: v.0, value: v.1 },
                    )
                } else if tag == 1 {
                    <(Hash32, Hash32)>::parse(rest).map(
                        |v: (Hash32, Hash32)| NodeView::Internal { left: v.0, right: v.1 },
                    )
                } else {
                    fault(CodecFault::UnknownDiscriminant { tag, what: "Node"@ }, rest)
                },
        )
    }

    fn decode(r: &mut Reader<'_>) -> (res: Result<Self, CodecError>) {
        let tag: u8 = u8::decode(r)?;
        match tag {
            0 => {
                let key_hash = Hash32::decode(r)?;
                let value = Vec::<u8>::decode(r)?;
                assert(value.deep_view() =~= value@);
                Ok(Node::Leaf { key_hash, value })
            },
            1 => {
                let left = Hash32::decode(r)?;
                let right = Hash32::decode(r)?;
                Ok(Node::Internal { left, right })
            },
            _ => Err(CodecError::UnknownDiscriminant { tag, what: "Node" }),
        }
    }
}

impl Canonical for Node {
    open spec fn valid(v: NodeView) -> bool {
        v matches NodeView::Leaf { value, .. } ==> value.len() <= MAX_FIELD_LEN
    }

    proof fn round_trip(v: NodeView, tail: Seq<u8>) {
        broadcast use wire::lemma_concat_assoc;

        match v {
            NodeView::Leaf { key_hash, value } => {
                let pair = (key_hash, value);
                u8::round_trip(0, <(Hash32, Vec<u8>)>::bytes_of(pair) + tail);
                <(Hash32, Vec<u8>)>::round_trip(pair, tail);
            },
            NodeView::Internal { left, right } => {
                let pair = (left, right);
                u8::round_trip(1, <(Hash32, Hash32)>::bytes_of(pair) + tail);
                <(Hash32, Hash32)>::round_trip(pair, tail);
            },
        }
    }

    proof fn one_encoding(s: Seq<u8>) {
        broadcast use wire::lemma_concat_assoc;

        u8::one_encoding(s);
        let rest = u8::parse(s).rest;
        <(Hash32, Vec<u8>)>::one_encoding(rest);
        <(Hash32, Hash32)>::one_encoding(rest);
    }
}

/// Somewhere nodes can be read from.
pub trait NodeSource {
    /// The node that is found under a hash.
    spec fn node_at(&self, hash: Hash32) -> Option<NodeView>;

    /// Fetch a node by its hash.
    fn get_node(&self, hash: Hash32) -> (node: Option<Node>)
        ensures
            node.deep_view() == self.node_at(hash),
    ;
}

/// Somewhere nodes can be written to.
pub trait NodeSink {
    /// The encoded nodes, by hash.
    spec fn records(&self) -> Map<Hash32, Seq<u8>>;

    /// Whether a node is already stored.
    fn has_node(&self, hash: Hash32) -> (b: bool)
        ensures
            b == self.records().dom().contains(hash),
    ;

    /// Store a node under its hash.
    fn put_node(&mut self, hash: Hash32, node: &Node)
        ensures
            final(self).records() == old(self).records().insert(
                hash,
                Node::bytes_of(node.deep_view()),
            ),
    ;
}

/// The node that encoded records hold under a hash, if they hold one that decodes.
pub open spec fn record_at(records: Map<Hash32, Seq<u8>>, hash: Hash32) -> Option<NodeView> {
    if records.dom().contains(hash) {
        match parse_exact::<Node>(records[hash]) {
            Ok(node) => Some(node),
            Err(_) => None,
        }
    } else {
        None
    }
}

/// An in-memory node store, used by tests and as a staging buffer.
#[derive(Debug)]
pub struct MemoryNodes {
    nodes: SortedRecords,
}

impl View for MemoryNodes {
    type V = Map<Hash32, Seq<u8>>;

    closed spec fn view(&self) -> Map<Hash32, Seq<u8>> {
        self.nodes@
    }
}

impl Clone for MemoryNodes {
    fn clone(&self) -> (r: Self)
        ensures
            r@ == self@,
    {
        MemoryNodes { nodes: self.nodes.clone() }
    }
}

impl Default for MemoryNodes {
    fn default() -> (r: Self)
        ensures
            r@ == Map::<Hash32, Seq<u8>>::empty(),
    {
        Self::new()
    }
}

impl MemoryNodes {
    /// An empty store.
    pub fn new() -> (r: Self)
        ensures
            r@ == Map::<Hash32, Seq<u8>>::empty(),
    {
        MemoryNodes { nodes: SortedRecords::new() }
    }

    /// Number of distinct nodes held.
    pub fn len(&self) -> (n: usize)
        ensures
            self@.dom().finite(),
            n == self@.dom().len(),
    {
        self.nodes.len()
    }

    /// Whether it holds nothing.
    pub fn is_empty(&self) -> (b: bool)
        ensures
            b == (self@ == Map::<Hash32, Seq<u8>>::empty()),
    {
        let empty = self.nodes.len() == 0;
        proof {
            if empty {
                assert(self@.dom() =~= Set::empty());
                assert(self@ =~= Map::empty());
            }
        }
        empty
    }

    /// Every stored node, as raw encoded bytes, in the order of the hashes.
    pub fn iter_raw(&self) -> (list: Vec<(Hash32, &Vec<u8>)>)
        ensures
            ascending(list.deep_view()),
            map_of_list(list.deep_view()) == self@,
    {
        self.nodes.listed()
    }

    /// Store raw encoded bytes under a hash.
    pub fn put_raw(&mut self, hash: Hash32, raw: Vec<u8>)
        ensures
            final(self)@ == old(self)@.insert(hash, raw@),
    {
        self.nodes.insert(hash, raw);
    }
}

impl NodeSource for MemoryNodes {
    open spec fn node_at(&self, hash: Hash32) -> Option<NodeView> {
        record_at(self@, hash)
    }

    fn get_node(&self, hash: Hash32) -> (node: Option<Node>) {
        match self.nodes.get(&hash) {
            None => None,
            Some(bytes) => match decode_exact::<Node>(bytes) {
                Ok(node) => Some(node),
                Err(_) => None,
            },
        }
    }
}

impl NodeSink for MemoryNodes {
    open spec fn records(&self) -> Map<Hash32, Seq<u8>> {
        self@
    }

    fn has_node(&self, hash: Hash32) -> (b: bool) {
        self.nodes.contains(&hash)
    }

    fn put_node(&mut self, hash: Hash32, node: &Node) {
        self.nodes.insert(hash, node.to_bytes());
    }
}

/// How many nodes a commit actually wrote.
#[derive(Debug, Clone, Copy, PartialEq, Eq, Structural)]
pub struct WriteStats {
    /// Nodes visited while materialising the tree.
    pub visited: usize,
    /// Nodes that were new and had to be written.
    pub written: usize,
}

/// What a commit does: the records after it, and the nodes visited and written.
pub struct Commit {
    pub records: Map<Hash32, Seq<u8>>,
    pub visited: nat,
    pub written: nat,
}

/// The node at the top of a tree that is not empty.
pub open spec fn top_node(s: Shape) -> NodeView {
    match s {
        Shape::Leaf { key, value } => NodeView::Leaf { key_hash: key, value },
        Shape::Branch { left, right } => NodeView::Internal {
            left: left.hash(),
            right: right.hash(),
        },
        Shape::Empty => arbitrary(),
    }
}

/// Writing a tree into records: what is already there is left alone, with
/// everything beneath it, and the rest is written from the bottom up.
pub open spec fn committed(s: Shape, c: Commit) -> Commit
    decreases s,
{
    if s is Empty {
        c
    } else if c.records.dom().contains(s.hash()) {
        Commit { records: c.records, visited: c.visited + 1, written: c.written }
    } else {
        let below = match s {
            Shape::Branch { left, right } => committed(
                *right,
                committed(
                    *left,
                    Commit { records: c.records, visited: c.visited + 1, written: c.written },
                ),
            ),
            _ => Commit { records: c.records, visited: c.visited + 1, written: c.written },
        };
        Commit {
            records: below.records.insert(s.hash(), Node::bytes_of(top_node(s))),
            visited: below.visited,
            written: below.written + 1,
        }
    }
}

/// Committing a tree from a fresh count.
pub open spec fn commit_of(s: Shape, records: Map<Hash32, Seq<u8>>) -> Commit {
    committed(s, Commit { records, visited: 0, written: 0 })
}

/// The smaller of a count and what a `usize` can hold.
pub open spec fn capped(n: nat) -> nat {
    if n <= usize::MAX {
        n
    } else {
        usize::MAX as nat
    }
}

/// Write every node of `tree` into `sink`, returning the root hash.
///
/// Nodes already present are skipped, so only genuinely new nodes are written.
pub fn commit_tree<S: NodeSink>(tree: &SparseMerkleTree, sink: &mut S) -> (r: (Hash32, WriteStats))
    ensures
        tree@.dom().finite(),
        r.0 == tree_of(tree@).hash(),
        ({
            let c = commit_of(tree_of(tree@), old(sink).records());
            &&& final(sink).records() == c.records
            &&& r.1.visited == capped(c.visited)
            &&& r.1.written == capped(c.written)
        }),
{
    let mut stats = WriteStats { visited: 0, written: 0 };
    let ghost start = Commit { records: sink.records(), visited: 0, written: 0 };
    let root = match tree.root_node() {
        Some(node) => write_node(node, sink, &mut stats, Ghost(start)),
        None => Hash32::zero(),
    };
    (root, stats)
}

/// Write a node and everything new beneath it.
///
/// A hash the sink already holds names a subtree it already holds in full, so
/// there is nothing to do below it.
fn write_node<S: NodeSink>(
    node: NodeRef<'_>,
    sink: &mut S,
    stats: &mut WriteStats,
    Ghost(c): Ghost<Commit>,
) -> (hash: Hash32)
    requires
        old(sink).records() == c.records,
        old(stats).visited == capped(c.visited),
        old(stats).written == capped(c.written),
    ensures
        hash == node.shape().hash(),
        final(sink).records() == committed(node.shape(), c).records,
        final(stats).visited == capped(committed(node.shape(), c).visited),
        final(stats).written == capped(committed(node.shape(), c).written),
    decreases node.shape(),
{
    let hash = node.hash();
    stats.visited = stats.visited.saturating_add(1);
    if sink.has_node(hash) {
        return hash;
    }
    let ghost c1 = Commit { records: c.records, visited: c.visited + 1, written: c.written };
    let materialised = match node.kind() {
        NodeKind::Leaf { key_hash, value } => {
            let copy = value.clone();
            assert(copy@ =~= value@);
            assert(sink.records() == c1.records);
            Node::Leaf { key_hash, value: copy }
        },
        NodeKind::Internal { left, right } => {
            let ghost l = node_shape(left);
            let ghost r = node_shape(right);
            let ghost c2 = committed(l, c1);
            let left_hash = match left {
                None => Hash32::zero(),
                Some(child) => write_node(child, sink, stats, Ghost(c1)),
            };
            let right_hash = match right {
                None => Hash32::zero(),
                Some(child) => write_node(child, sink, stats, Ghost(c2)),
            };
            assert(sink.records() == committed(r, c2).records);
            assert(left_hash == l.hash() && right_hash == r.hash());
            Node::Internal { left: left_hash, right: right_hash }
        },
    };
    assert(materialised.deep_view() == top_node(node.shape()));
    sink.put_node(hash, &materialised);
    stats.written = stats.written.saturating_add(1);
    hash
}

/// The entries under a hash, from left to right, when nodes are looked up by
/// `find` and no path is longer than `fuel` nodes; nothing where a node is missing.
pub open spec fn gathered(
    find: spec_fn(Hash32) -> Option<NodeView>,
    hash: Hash32,
    fuel: nat,
) -> Option<Seq<(Hash32, Seq<u8>)>>
    decreases fuel,
{
    if hash == Hash32::all_zero() {
        Some(Seq::empty())
    } else if fuel == 0 {
        None
    } else {
        match find(hash) {
            None => None,
            Some(NodeView::Leaf { key_hash, value }) => Some(seq![(key_hash, value)]),
            Some(NodeView::Internal { left, right }) => match (
                gathered(find, left, (fuel - 1) as nat),
                gathered(find, right, (fuel - 1) as nat),
            ) {
                (Some(l), Some(r)) => Some(l + r),
                _ => None,
            },
        }
    }
}

/// The nodes of a source, as a function.
pub open spec fn nodes_of<S: NodeSource>(source: &S) -> spec_fn(Hash32) -> Option<NodeView> {
    |h: Hash32| source.node_at(h)
}

/// Rebuild a tree from the nodes reachable from `root`.
///
/// Returns `None` if any node on the way is missing, which is how a truncated or
/// corrupted store is detected rather than silently producing partial state. A
/// chain of nodes that never ends counts as missing its end.
pub fn load_tree<S: NodeSource>(root: Hash32, source: &S) -> (tree: Option<SparseMerkleTree>)
    ensures
        match gathered(nodes_of(source), root, usize::MAX as nat) {
            None => tree is None,
            Some(list) => tree is Some && tree->0@ == inserted(Map::empty(), list),
        },
{
    let mut tree = SparseMerkleTree::new();
    match collect(root, source, &mut tree, usize::MAX) {
        None => None,
        Some(()) => Some(tree),
    }
}

/// Insert everything under `hash` into `out`.
fn collect<S: NodeSource>(
    hash: Hash32,
    source: &S,
    out: &mut SparseMerkleTree,
    fuel: usize,
) -> (done: Option<()>)
    ensures
        match gathered(nodes_of(source), hash, fuel as nat) {
            None => done is None,
            Some(list) => done is Some && final(out)@ == inserted(old(out)@, list),
        },
    decreases fuel,
{
    if hash.same(&Hash32::zero()) {
        return Some(());
    }
    if fuel == 0 {
        return None;
    }
    match source.get_node(hash) {
        None => None,
        Some(Node::Leaf { key_hash, value }) => {
            let ghost list = seq![(key_hash, value@)];
            assert(list.drop_last() =~= Seq::empty());
            assert(inserted(out@, list) == inserted(out@, list.drop_last()).insert(
                list.last().0,
                list.last().1,
            ));
            out.insert_hashed(key_hash, value);
            Some(())
        },
        Some(Node::Internal { left, right }) => {
            let ghost before = out@;
            match collect(left, source, out, fuel - 1) {
                None => None,
                Some(()) => {
                    let done = collect(right, source, out, fuel - 1);
                    proof {
                        let l = gathered(nodes_of(source), left, (fuel - 1) as nat);
                        let r = gathered(nodes_of(source), right, (fuel - 1) as nat);
                        if let Some(b) = r {
                            lemma_inserted_concat(before, l->0, b);
                        }
                    }
                    done
                },
            }
        },
    }
}

/// Inserting two lists in turn inserts their concatenation.
proof fn lemma_inserted_concat(
    entries: Map<Hash32, Seq<u8>>,
    a: Seq<(Hash32, Seq<u8>)>,
    b: Seq<(Hash32, Seq<u8>)>,
)
    ensures
        inserted(inserted(entries, a), b) == inserted(entries, a + b),
    decreases b.len(),
{
    if b.len() == 0 {
        assert(a + b =~= a);
    } else {
        lemma_inserted_concat(entries, a, b.drop_last());
        assert((a + b).drop_last() =~= a + b.drop_last());
    }
}

/// The path hash a raw key maps to, for callers building proofs.
pub fn path_of(key: &[u8]) -> (h: Hash32)
    ensures
        h == path(key@),
{
    key_hash(key)
}

// ---------------------------------------------------------------------------
// Versions
// ---------------------------------------------------------------------------

/// The nodes in encoded records, as a function.
pub open spec fn nodes_in(records: Map<Hash32, Seq<u8>>) -> spec_fn(Hash32) -> Option<NodeView> {
    |h: Hash32| record_at(records, h)
}

/// Whether records hold every node of a tree.
pub open spec fn holds(records: Map<Hash32, Seq<u8>>, s: Shape) -> bool
    decreases s,
{
    s is Empty || {
        &&& records.dom().contains(s.hash())
        &&& records[s.hash()] == Node::bytes_of(top_node(s))
        &&& match s {
            Shape::Branch { left, right } => holds(records, *left) && holds(records, *right),
            _ => true,
        }
    }
}

/// Whether every value of a tree is short enough to be encoded.
pub open spec fn storable(s: Shape) -> bool
    decreases s,
{
    match s {
        Shape::Empty => true,
        Shape::Leaf { value, .. } => value.len() <= MAX_FIELD_LEN,
        Shape::Branch { left, right } => storable(*left) && storable(*right),
    }
}

/// A tree under the given hash, all of whose nodes are in the records, hashed from
/// the given preimages.
pub open spec fn version_at(
    records: Map<Hash32, Seq<u8>>,
    hashed: Set<Preimage>,
    hash: Hash32,
    s: Shape,
) -> bool {
    &&& s.hash() == hash
    &&& !(s is Empty)
    &&& hashed_in(s).subset_of(hashed)
    &&& holds(records, s)
}

/// Whether every record tops a tree that the records hold in full.
pub open spec fn complete(records: Map<Hash32, Seq<u8>>, hashed: Set<Preimage>) -> bool {
    forall|h: Hash32| #[trigger]
        records.dom().contains(h) ==> exists|s: Shape| version_at(records, hashed, h, s)
}

/// Nothing that was stored is overwritten or dropped by a commit.
pub proof fn law_commits_keep_records(s: Shape, c: Commit)
    ensures
        c.records.submap_of(committed(s, c).records),
    decreases s,
{
    if !(s is Empty) && !c.records.dom().contains(s.hash()) {
        let c1 = Commit { records: c.records, visited: c.visited + 1, written: c.written };
        match s {
            Shape::Branch { left, right } => {
                let c2 = committed(*left, c1);
                law_commits_keep_records(*left, c1);
                law_commits_keep_records(*right, c2);
                assert(c.records.submap_of(committed(*right, c2).records)) by {
                    lemma_submap_transitive(c.records, c2.records, committed(*right, c2).records);
                }
                lemma_insert_keeps(
                    c.records,
                    committed(*right, c2).records,
                    s.hash(),
                    Node::bytes_of(top_node(s)),
                );
            },
            _ => {
                lemma_insert_keeps(c.records, c1.records, s.hash(), Node::bytes_of(top_node(s)));
            },
        }
    }
}

proof fn lemma_submap_transitive(
    a: Map<Hash32, Seq<u8>>,
    b: Map<Hash32, Seq<u8>>,
    c: Map<Hash32, Seq<u8>>,
)
    requires
        a.submap_of(b),
        b.submap_of(c),
    ensures
        a.submap_of(c),
{
    assert forall|h: Hash32| #[trigger] a.dom().contains(h) implies c.dom().contains(h) && a[h]
        == c[h] by {
        assert(b.dom().contains(h));
        assert(c.dom().contains(h));
        assert(b[h] == c[h]);
    }
}

proof fn lemma_insert_keeps(
    a: Map<Hash32, Seq<u8>>,
    b: Map<Hash32, Seq<u8>>,
    hash: Hash32,
    bytes: Seq<u8>,
)
    requires
        a.submap_of(b),
        !a.dom().contains(hash),
    ensures
        a.submap_of(b.insert(hash, bytes)),
{
    assert forall|h: Hash32| a.dom().contains(h) implies #[trigger] b.insert(
        hash,
        bytes,
    ).dom().contains(h) && a[h] == b.insert(hash, bytes)[h] by {
        assert(b.dom().contains(h));
    }
}

/// Every older version stays loadable: a root that loads before a commit loads the
/// same entries after it.
pub proof fn law_older_versions_stay(s: Shape, c: Commit, root: Hash32, fuel: nat)
    requires
        gathered(nodes_in(c.records), root, fuel) is Some,
    ensures
        gathered(nodes_in(committed(s, c).records), root, fuel) == gathered(
            nodes_in(c.records),
            root,
            fuel,
        ),
    decreases fuel,
{
    law_commits_keep_records(s, c);
    if root != Hash32::all_zero() {
        assert(nodes_in(c.records)(root) is Some);
        assert(c.records.dom().contains(root));
        assert(committed(s, c).records.dom().contains(root));
        assert(nodes_in(committed(s, c).records)(root) == nodes_in(c.records)(root));
        match nodes_in(c.records)(root) {
            Some(NodeView::Internal { left, right }) => {
                law_older_versions_stay(s, c, left, (fuel - 1) as nat);
                law_older_versions_stay(s, c, right, (fuel - 1) as nat);
            },
            _ => {},
        }
    }
}

/// Whether a hash is met on the way down from another, in at most so many steps.
pub open spec fn reaches(
    find: spec_fn(Hash32) -> Option<NodeView>,
    from: Hash32,
    to: Hash32,
    steps: nat,
) -> bool
    decreases steps,
{
    from == to || steps > 0 && from != Hash32::all_zero() && match find(from) {
        Some(NodeView::Internal { left, right }) => reaches(find, left, to, (steps - 1) as nat)
            || reaches(find, right, to, (steps - 1) as nat),
        _ => false,
    }
}

/// A truncated or corrupted store is noticed, and never loads as partial state: where any
/// node that the root leads to is missing, nothing is loaded.
pub proof fn law_a_missing_node_is_noticed(
    find: spec_fn(Hash32) -> Option<NodeView>,
    root: Hash32,
    missing: Hash32,
    steps: nat,
    fuel: nat,
)
    requires
        reaches(find, root, missing, steps),
        missing != Hash32::all_zero(),
        find(missing) is None,
    ensures
        gathered(find, root, fuel) is None,
    decreases steps,
{
    if root != missing && fuel > 0 {
        match find(root) {
            Some(NodeView::Internal { left, right }) => {
                if reaches(find, left, missing, (steps - 1) as nat) {
                    law_a_missing_node_is_noticed(
                        find,
                        left,
                        missing,
                        (steps - 1) as nat,
                        (fuel - 1) as nat,
                    );
                } else {
                    law_a_missing_node_is_noticed(
                        find,
                        right,
                        missing,
                        (steps - 1) as nat,
                        (fuel - 1) as nat,
                    );
                }
            },
            _ => {},
        }
    }
}

/// Committing a tree a second time visits its root and writes nothing.
pub proof fn law_recommit_writes_nothing(s: Shape, records: Map<Hash32, Seq<u8>>)
    ensures
        ({
            let first = commit_of(s, records);
            let second = commit_of(s, first.records);
            &&& second.records == first.records
            &&& second.written == 0
            &&& second.visited == if s is Empty { 0nat } else { 1nat }
        }),
{
}

proof fn lemma_holds_grows(a: Map<Hash32, Seq<u8>>, b: Map<Hash32, Seq<u8>>, s: Shape)
    requires
        a.submap_of(b),
        holds(a, s),
    ensures
        holds(b, s),
    decreases s,
{
    match s {
        Shape::Branch { left, right } => {
            lemma_holds_grows(a, b, *left);
            lemma_holds_grows(a, b, *right);
        },
        _ => {},
    }
}

proof fn lemma_complete_grows(
    a: Map<Hash32, Seq<u8>>,
    b: Map<Hash32, Seq<u8>>,
    hashed: Set<Preimage>,
    h: Hash32,
)
    requires
        a.submap_of(b),
        complete(a, hashed),
        a.dom().contains(h),
    ensures
        exists|s: Shape| version_at(b, hashed, h, s),
{
    let s = choose|s: Shape| version_at(a, hashed, h, s);
    lemma_holds_grows(a, b, s);
    assert(version_at(b, hashed, h, s));
}

/// A commit leaves every node of the tree in the records, and the records complete.
proof fn lemma_commit_holds(s: Shape, c: Commit, hashed: Set<Preimage>)
    requires
        complete(c.records, hashed),
        clash_free(hashed),
        hashed_in(s).subset_of(hashed),
    ensures
        holds(committed(s, c).records, s),
        complete(committed(s, c).records, hashed),
    decreases s,
{
    if s is Empty {
    } else if c.records.dom().contains(s.hash()) {
        let t = choose|t: Shape| version_at(c.records, hashed, s.hash(), t);
        lemma_hash_binds_shape(hashed, s, t);
    } else {
        let c1 = Commit { records: c.records, visited: c.visited + 1, written: c.written };
        let after = committed(s, c).records;
        let below = match s {
            Shape::Branch { left, right } => {
                assert(hashed_in(*left).subset_of(hashed_in(s)));
                assert(hashed_in(*right).subset_of(hashed_in(s)));
                let c2 = committed(*left, c1);
                lemma_commit_holds(*left, c1, hashed);
                lemma_commit_holds(*right, c2, hashed);
                law_commits_keep_records(*right, c2);
                lemma_holds_grows(c2.records, committed(*right, c2).records, *left);
                committed(*right, c2)
            },
            _ => c1,
        };
        assert(after == below.records.insert(s.hash(), Node::bytes_of(top_node(s))));
        if below.records.dom().contains(s.hash()) {
            let t = choose|t: Shape| version_at(below.records, hashed, s.hash(), t);
            lemma_hash_binds_shape(hashed, s, t);
        }
        assert(below.records.submap_of(after));
        match s {
            Shape::Branch { left, right } => {
                lemma_holds_grows(below.records, after, *left);
                lemma_holds_grows(below.records, after, *right);
            },
            _ => {},
        }
        assert(version_at(after, hashed, s.hash(), s));
        assert forall|h: Hash32| #[trigger] after.dom().contains(h) implies exists|t: Shape|
            version_at(after, hashed, h, t) by {
            if h != s.hash() {
                lemma_complete_grows(below.records, after, hashed, h);
            }
        }
    }
}

/// Records that hold a tree give its entries back.
proof fn lemma_held_tree_gathers(
    records: Map<Hash32, Seq<u8>>,
    s: Shape,
    hashed: Set<Preimage>,
    depth: nat,
    fuel: nat,
)
    requires
        holds(records, s),
        storable(s),
        s.canonical(depth),
        clash_free(hashed),
        hashed_in(s).subset_of(hashed),
        depth <= 256,
        fuel + depth > 256,
    ensures
        gathered(nodes_in(records), s.hash(), fuel) == Some(s.listed()),
    decreases s,
{
    let find = nodes_in(records);
    if s is Empty {
    } else {
        lemma_top_preimage(s);
        assert(hashed.contains(top_preimage(s)));
        assert(s.hash() != Hash32::all_zero());
        law_decode_exact_inverts_encode::<Node>(top_node(s));
        assert(find(s.hash()) == Some(top_node(s)));
        match s {
            Shape::Branch { left, right } => {
                assert(hashed_in(*left).subset_of(hashed_in(s)));
                assert(hashed_in(*right).subset_of(hashed_in(s)));
                lemma_held_tree_gathers(records, *left, hashed, depth + 1, (fuel - 1) as nat);
                lemma_held_tree_gathers(records, *right, hashed, depth + 1, (fuel - 1) as nat);
            },
            _ => {},
        }
    }
}

proof fn lemma_listing_inserts_entries(s: Shape, depth: nat)
    requires
        s.canonical(depth),
    ensures
        inserted(Map::empty(), s.listed()) == s.entries(),
    decreases s,
{
    match s {
        Shape::Empty => {
            assert(s.listed().len() == 0);
        },
        Shape::Leaf { key, value } => {
            assert(s.listed().drop_last() =~= Seq::empty());
            assert(s.listed().last() == (key, value));
            assert(
                inserted(Map::empty(), s.listed().drop_last()) == Map::<Hash32, Seq<u8>>::empty()
            );
        },
        Shape::Branch { left, right } => {
            lemma_listing_inserts_entries(*left, depth + 1);
            lemma_listing_inserts_entries(*right, depth + 1);
            lemma_inserted_concat(Map::empty(), left.listed(), right.listed());
            lemma_inserted_onto(left.entries(), right.listed());
        },
    }
}

/// Inserting a list onto entries lays what the list says over them.
proof fn lemma_inserted_onto(entries: Map<Hash32, Seq<u8>>, list: Seq<(Hash32, Seq<u8>)>)
    ensures
        inserted(entries, list) == entries.union_prefer_right(inserted(Map::empty(), list)),
    decreases list.len(),
{
    if list.len() == 0 {
        assert(inserted(entries, list) =~= entries.union_prefer_right(
            inserted(Map::empty(), list),
        ));
    } else {
        lemma_inserted_onto(entries, list.drop_last());
        assert(inserted(entries, list) =~= entries.union_prefer_right(
            inserted(Map::empty(), list),
        ));
    }
}

proof fn lemma_storable(s: Shape)
    requires
        forall|k: Hash32| #[trigger] s.entries().dom().contains(k) ==> s.entries()[k].len()
            <= MAX_FIELD_LEN,
        exists|depth: nat| s.canonical(depth),
    ensures
        storable(s),
    decreases s,
{
    match s {
        Shape::Empty => {},
        Shape::Leaf { key, value } => {
            assert(s.entries().dom().contains(key));
        },
        Shape::Branch { left, right } => {
            let depth = choose|depth: nat| s.canonical(depth);
            assert(left.canonical(depth + 1));
            assert(right.canonical(depth + 1));
            assert forall|k: Hash32| #[trigger]
                left.entries().dom().contains(k) implies left.entries()[k].len()
                <= MAX_FIELD_LEN by {
                assert(s.entries().dom().contains(k));
                assert(!right.entries().dom().contains(k));
            }
            assert forall|k: Hash32| #[trigger]
                right.entries().dom().contains(k) implies right.entries()[k].len()
                <= MAX_FIELD_LEN by {
                assert(s.entries().dom().contains(k));
            }
            lemma_storable(*left);
            lemma_storable(*right);
        },
    }
}

/// State comes back from its root: after a commit, loading the root gives exactly
/// the committed entries, as long as no two of the hashed preimages clash and every
/// value is short enough to be encoded. The records stay complete, so the same holds
/// of every later commit.
pub proof fn law_committed_tree_reloads(
    entries: Map<Hash32, Seq<u8>>,
    records: Map<Hash32, Seq<u8>>,
    hashed: Set<Preimage>,
)
    requires
        entries.dom().finite(),
        forall|k: Hash32| #[trigger] entries.dom().contains(k) ==> entries[k].len()
            <= MAX_FIELD_LEN,
        complete(records, hashed),
        clash_free(hashed),
        hashed_in(tree_of(entries)).subset_of(hashed),
    ensures
        ({
            let after = commit_of(tree_of(entries), records).records;
            let loaded = gathered(nodes_in(after), tree_of(entries).hash(), usize::MAX as nat);
            &&& loaded is Some
            &&& inserted(Map::empty(), loaded->0) == entries
            &&& complete(after, hashed)
        }),
{
    let s = tree_of(entries);
    lemma_tree_of(entries);
    lemma_storable(s);
    lemma_commit_holds(s, Commit { records, visited: 0, written: 0 }, hashed);
    let after = commit_of(s, records).records;
    lemma_held_tree_gathers(after, s, hashed, 0, usize::MAX as nat);
    lemma_listing_inserts_entries(s, 0);
}

/// A store that holds nothing yet is complete.
pub proof fn law_empty_store_is_complete(hashed: Set<Preimage>)
    ensures
        complete(Map::empty(), hashed),
{
}

} // verus!
