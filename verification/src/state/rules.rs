//! What the state's digests and keys are made of, rule by rule.
//!
//! The laws here put the tree, its proofs and the keys of its records in terms of bytes.

use crate::crypto::address::Address;
use crate::crypto::hash::{digest, Domain, Hash32};
use crate::primitives::codec::{parse_exact, Decode, Encode};
use crate::primitives::text;
use crate::state::membership::{
    climb, end_of, proof_along, siblings_along, LeafView, ProofView,
};
use crate::state::nodes::{committed, top_node, Commit, Node, NodeView};
use crate::state::shape::{
    leaf_digest, lookup, node_digest, path, root_of, side, subtree_of, tree_of, Shape,
};
use crate::state::smt::inserted;
use crate::state::store::{
    account_key, alias_key, alias_reverse_key, balance_key, bond_index_key, bond_key, contact_key,
    frozen_key, issuer_key, key_bytes, part_views, parts_bytes, supply_key, typed, typed_outcome,
    unbonding_key, Namespace, StateError, StateFault,
};
use vstd::prelude::*;
use vstd::utf8::encode_utf8;

verus! {

// ---------------------------------------------------------------------------
// The tree
// ---------------------------------------------------------------------------

/// What the state hashes: a key to its path, an entry as its path and the digest of its
/// value, and a branch as the digests of its two sides, the side of the clear bit first.
/// Nothing at all is the zero digest.
pub proof fn law_what_the_state_hashes(key: Seq<u8>, at: Hash32, value: Seq<u8>, l: Shape, r: Shape)
    ensures
        path(key) == digest(Domain::StateLeaf, key),
        leaf_digest(at, value) == digest(
            Domain::StateLeaf,
            at.0@ + digest(Domain::StateLeaf, value).0@,
        ),
        node_digest(at, at) == digest(Domain::StateNode, at.0@ + at.0@),
        Shape::Empty.hash() == Hash32::all_zero(),
        (Shape::Leaf { key: at, value }).hash() == digest(
            Domain::StateLeaf,
            at.0@ + digest(Domain::StateLeaf, value).0@,
        ),
        (Shape::Branch { left: Box::new(l), right: Box::new(r) }).hash() == digest(
            Domain::StateNode,
            l.hash().0@ + r.hash().0@,
        ),
{
}

/// How the tree parts its entries: one entry is a leaf at once, and several part by the
/// bit at their depth, the clear ones to the left.
pub proof fn law_how_the_tree_parts_its_entries(
    entries: Map<Hash32, Seq<u8>>,
    depth: nat,
    key: Hash32,
    right: bool,
)
    requires
        entries.dom().finite(),
        depth < 256,
    ensures
        entries.dom().len() == 0 ==> subtree_of(entries, depth) is Empty,
        entries.dom() == set![key] ==> subtree_of(entries, depth) == (Shape::Leaf {
            key,
            value: entries[key],
        }),
        entries.dom().len() > 1 ==> subtree_of(entries, depth) == (Shape::Branch {
            left: Box::new(subtree_of(side(entries, depth, false), depth + 1)),
            right: Box::new(subtree_of(side(entries, depth, true), depth + 1)),
        }),
        lookup(side(entries, depth, right), key) == if key.bit_at(depth as int) == right {
            lookup(entries, key)
        } else {
            None
        },
        tree_of(entries) == subtree_of(entries, 0),
        root_of(entries) == subtree_of(entries, 0).hash(),
{
    if entries.dom() == set![key] {
        assert(entries.dom().len() == 1);
        assert(entries.dom().contains(entries.dom().choose()));
    }
}

/// Looking a path up gives what is stored there, and nothing where nothing is.
pub proof fn law_lookup_reads_the_entry(entries: Map<Hash32, Seq<u8>>, key: Hash32)
    ensures
        lookup(entries, key) is Some <==> entries.dom().contains(key),
        lookup(entries, key) matches Some(v) ==> v == entries[key],
{
}

/// A list of entries is taken in order: the last value given for a path stays.
pub proof fn law_the_last_value_stays(
    entries: Map<Hash32, Seq<u8>>,
    list: Seq<(Hash32, Seq<u8>)>,
    key: Hash32,
    value: Seq<u8>,
    other: Hash32,
)
    ensures
        inserted(entries, Seq::empty()) == entries,
        lookup(inserted(entries, list.push((key, value))), key) == Some(value),
        other != key ==> lookup(inserted(entries, list.push((key, value))), other) == lookup(
            inserted(entries, list),
            other,
        ),
{
    assert(list.push((key, value)).drop_last() =~= list);
}

/// What a proof leads to: from the end it claims, the entry of the key itself, nothing,
/// or another entry that shares the path so far, up through its siblings to a root. One
/// deeper than a path is long, or whose other entry is the key's own or lies elsewhere,
/// leads nowhere. A proof shows what it claims and nothing else.
pub proof fn law_what_a_proof_shows(
    p: ProofView,
    root: Hash32,
    key: Seq<u8>,
    expected: Option<Seq<u8>>,
)
    ensures
        p.siblings.len() > 256 ==> p.implied_root(key) is None,
        p.leaf matches LeafView::AbsentOccupied { other_key_hash, other_value } ==> (other_key_hash
            == digest(Domain::StateLeaf, key) ==> p.implied_root(key) is None),
        p.leaf matches LeafView::AbsentOccupied { other_key_hash, other_value } ==> (
        p.implied_root(key) is Some ==> forall|i: int|
            0 <= i < p.siblings.len() ==> #[trigger] other_key_hash.bit_at(i) == digest(
                Domain::StateLeaf,
                key,
            ).bit_at(i)),
        p.siblings.len() <= 256 ==> (p.leaf matches LeafView::Present { value } ==> p.implied_root(
            key,
        ) == Some(
            climb(
                digest(Domain::StateLeaf, key),
                0,
                p.siblings,
                leaf_digest(digest(Domain::StateLeaf, key), value),
            ),
        )),
        p.siblings.len() <= 256 && p.leaf is Absent ==> p.implied_root(key) == Some(
            climb(digest(Domain::StateLeaf, key), 0, p.siblings, Hash32::all_zero()),
        ),
        p.leaf matches LeafView::AbsentOccupied { other_key_hash, other_value } ==> (
        p.implied_root(key) matches Some(h) ==> h == climb(
            digest(Domain::StateLeaf, key),
            0,
            p.siblings,
            leaf_digest(other_key_hash, other_value),
        )),
        p.leaf matches LeafView::AbsentOccupied { other_key_hash, other_value } ==> (
        p.siblings.len() <= 256 && other_key_hash != digest(Domain::StateLeaf, key)
            && (forall|i: int|
            0 <= i < p.siblings.len() ==> #[trigger] other_key_hash.bit_at(i) == digest(
                Domain::StateLeaf,
                key,
            ).bit_at(i)) ==> p.implied_root(key) is Some),
        p.shows(root, key, expected) <==> p.implied_root(key) == Some(root) && (match p.leaf {
            LeafView::Present { value } => expected == Some(value),
            _ => expected is None,
        }),
{
    if let LeafView::AbsentOccupied { other_key_hash, other_value } = p.leaf {
        if forall|i: int|
            0 <= i < p.siblings.len() ==> #[trigger] other_key_hash.bit_at(i) == digest(
                Domain::StateLeaf,
                key,
            ).bit_at(i) {
            assert forall|i: int| 0 <= i < p.siblings.len() implies #[trigger] path(key).bit_at(i)
                == other_key_hash.bit_at(i) by {
                assert(other_key_hash.bit_at(i) == digest(Domain::StateLeaf, key).bit_at(i));
            }
        }
        if p.implied_root(key) is Some {
            assert forall|i: int| 0 <= i < p.siblings.len()
                implies #[trigger] other_key_hash.bit_at(
                i,
            ) == digest(Domain::StateLeaf, key).bit_at(i) by {
                assert(path(key).bit_at(i) == other_key_hash.bit_at(i));
            }
        }
    }
}

/// What a proof lists: at every branch the digest of the side that the path does not take,
/// the topmost first, and at the end what the path ends in.
pub proof fn law_what_a_proof_lists(key: Hash32, depth: nat, l: Shape, r: Shape, value: Seq<u8>)
    ensures
        ({
            let branch = Shape::Branch { left: Box::new(l), right: Box::new(r) };
            let (taken, other) = if key.bit_at(depth as int) {
                (r, l)
            } else {
                (l, r)
            };
            &&& siblings_along(branch, key, depth) == seq![other.hash()] + siblings_along(
                taken,
                key,
                depth + 1,
            )
            &&& end_of(branch, key, depth) == end_of(taken, key, depth + 1)
        }),
        siblings_along(Shape::Empty, key, depth) == Seq::<Hash32>::empty(),
        siblings_along(Shape::Leaf { key, value }, key, depth) == Seq::<Hash32>::empty(),
        end_of(Shape::Empty, key, depth) is Absent,
        end_of(Shape::Leaf { key, value }, key, depth) == (LeafView::Present { value }),
        forall|k: Hash32|
            k != key ==> #[trigger] end_of(Shape::Leaf { key: k, value }, key, depth)
                == (LeafView::AbsentOccupied { other_key_hash: k, other_value: value }),
        proof_along(l, key).siblings == siblings_along(l, key, 0),
        proof_along(l, key).leaf == end_of(l, key, 0),
{
}

/// How a proof is climbed: the first sibling is the topmost and is joined last, on the
/// side that the key's bit does not take.
pub proof fn law_how_a_proof_is_climbed(
    key: Hash32,
    depth: nat,
    top: Hash32,
    rest: Seq<Hash32>,
    node: Hash32,
)
    ensures
        climb(key, depth, Seq::empty(), node) == node,
        climb(key, depth, seq![top] + rest, node) == if key.bit_at(depth as int) {
            digest(Domain::StateNode, top.0@ + climb(key, depth + 1, rest, node).0@)
        } else {
            digest(Domain::StateNode, climb(key, depth + 1, rest, node).0@ + top.0@)
        },
{
    let all = seq![top] + rest;
    assert(all[0] == top);
    assert(all.drop_first() =~= rest);
}

/// What a stored node hashes to, and which node stands for the top of a tree.
pub proof fn law_what_a_node_hashes_to(at: Hash32, value: Seq<u8>, l: Shape, r: Shape)
    ensures
        (NodeView::Leaf { key_hash: at, value }).hash() == digest(
            Domain::StateLeaf,
            at.0@ + digest(Domain::StateLeaf, value).0@,
        ),
        (NodeView::Internal { left: l.hash(), right: r.hash() }).hash() == digest(
            Domain::StateNode,
            l.hash().0@ + r.hash().0@,
        ),
        top_node(Shape::Leaf { key: at, value }) == (NodeView::Leaf { key_hash: at, value }),
        top_node(Shape::Branch { left: Box::new(l), right: Box::new(r) }) == (NodeView::Internal {
            left: l.hash(),
            right: r.hash(),
        }),
{
}

/// What a commit counts: it writes at least as many nodes as the store has more
/// afterwards, it looks at every node it writes, and the counts it was begun with stay.
pub proof fn law_what_a_commit_counts(s: Shape, c: Commit)
    requires
        c.records.dom().finite(),
    ensures
        committed(s, c).records.dom().finite(),
        committed(s, c).written >= c.written,
        committed(s, c).records.dom().len() - c.records.dom().len() <= committed(s, c).written
            - c.written <= committed(s, c).visited - c.visited,
        !(s is Empty) ==> committed(s, c).records.dom().contains(s.hash()),
        !(s is Empty) ==> committed(s, c).visited > c.visited,
        s is Empty ==> committed(s, c) == c,
        c.records.dom().contains(s.hash()) && !(s is Empty) ==> committed(s, c) == (Commit {
            visited: c.visited + 1,
            ..c
        }),
        !(s is Empty) && !c.records.dom().contains(s.hash()) ==> committed(s, c).records[s.hash()]
            == Node::bytes_of(top_node(s)),
    decreases s,
{
    if !(s is Empty) && !c.records.dom().contains(s.hash()) {
        let begun = Commit { records: c.records, visited: c.visited + 1, written: c.written };
        if let Shape::Branch { left, right } = s {
            law_what_a_commit_counts(*left, begun);
            law_what_a_commit_counts(*right, committed(*left, begun));
        }
    }
}

// ---------------------------------------------------------------------------
// Keys
// ---------------------------------------------------------------------------

/// Which byte a kind of record is filed under.
pub proof fn law_every_kind_of_record_has_its_byte()
    ensures
        Namespace::Account.prefix() == 1,
        Namespace::Balance.prefix() == 2,
        Namespace::Supply.prefix() == 3,
        Namespace::Issuer.prefix() == 4,
        Namespace::Validator.prefix() == 5,
        Namespace::Delegation.prefix() == 6,
        Namespace::Params.prefix() == 7,
        Namespace::Contract.prefix() == 8,
        Namespace::Frozen.prefix() == 9,
        Namespace::Alias.prefix() == 10,
        Namespace::Contact.prefix() == 11,
        Namespace::AliasReverse.prefix() == 12,
        Namespace::Unbonding.prefix() == 13,
{
}

proof fn lemma_one_part(a: Seq<u8>)
    ensures
        parts_bytes(seq![a]) == u32::bytes_of(a.len() as u32) + a,
{
    let one = seq![a];
    assert(one.drop_last() =~= Seq::<Seq<u8>>::empty());
    assert(parts_bytes(one.drop_last()) =~= Seq::<u8>::empty());
    assert(parts_bytes(one) =~= u32::bytes_of(a.len() as u32) + a);
}

proof fn lemma_two_parts(a: Seq<u8>, b: Seq<u8>)
    ensures
        parts_bytes(seq![a, b]) == u32::bytes_of(a.len() as u32) + a + u32::bytes_of(
            b.len() as u32,
        ) + b,
{
    let two = seq![a, b];
    lemma_one_part(a);
    assert(two.drop_last() =~= seq![a]);
    assert(parts_bytes(two) =~= u32::bytes_of(a.len() as u32) + a + u32::bytes_of(b.len() as u32)
        + b);
}

/// Where each record is kept: under the byte of its kind, then each part of its name with
/// its length before it.
pub proof fn law_where_each_record_is_kept(
    a: Address,
    h: Hash32,
    s: Seq<char>,
    ns: Namespace,
    part: Seq<u8>,
    other: Seq<u8>,
)
    ensures
        ({
            let of_address = u32::bytes_of(20) + a.0@;
            let of_text = u32::bytes_of(encode_utf8(s).len() as u32) + encode_utf8(s);
            let of_hash = u32::bytes_of(32) + h.0@;
            &&& account_key(a) == seq![1u8] + of_address
            &&& balance_key(a, s) == seq![2u8] + of_address + of_text
            &&& supply_key(s) == seq![3u8] + of_text
            &&& issuer_key(s) == seq![4u8] + of_text
            &&& bond_key(a) == seq![5u8] + of_address
            &&& bond_index_key() == seq![5u8]
            &&& frozen_key(s, a) == seq![9u8] + of_text + of_address
            &&& alias_key(s) == seq![10u8] + of_text
            &&& contact_key(h) == seq![11u8] + of_hash
            &&& alias_reverse_key(a) == seq![12u8] + of_address
            &&& unbonding_key(a) == seq![13u8] + of_address
        }),
        key_bytes(ns, seq![]) == seq![ns.prefix()],
        key_bytes(ns, seq![part]) == seq![ns.prefix()] + u32::bytes_of(part.len() as u32) + part,
        key_bytes(ns, seq![part, other]) == seq![ns.prefix()] + u32::bytes_of(part.len() as u32)
            + part + u32::bytes_of(other.len() as u32) + other,
{
    let t = encode_utf8(s);
    lemma_one_part(a.0@);
    lemma_one_part(t);
    lemma_one_part(h.0@);
    lemma_one_part(part);
    lemma_two_parts(a.0@, t);
    lemma_two_parts(t, a.0@);
    lemma_two_parts(part, other);
    let of_address = u32::bytes_of(20) + a.0@;
    let of_text = u32::bytes_of(t.len() as u32) + t;
    assert(balance_key(a, s) =~= seq![2u8] + of_address + of_text);
    assert(frozen_key(s, a) =~= seq![9u8] + of_text + of_address);
    assert(parts_bytes(seq![]) =~= Seq::<u8>::empty());
    assert(bond_index_key() =~= seq![5u8]);
    assert(key_bytes(ns, seq![]) =~= seq![ns.prefix()]);
    assert(key_bytes(ns, seq![part]) =~= seq![ns.prefix()] + u32::bytes_of(part.len() as u32)
        + part);
    assert(key_bytes(ns, seq![part, other]) =~= seq![ns.prefix()] + u32::bytes_of(
        part.len() as u32,
    ) + part + u32::bytes_of(other.len() as u32) + other);
}

/// What a typed read gives: nothing where nothing is stored, and otherwise what the bytes
/// decode to as a whole. Bytes that do not decode are a corrupt record, named by its key,
/// and never nothing.
pub proof fn law_what_a_typed_read_gives<T: Decode>(
    entries: Map<Hash32, Seq<u8>>,
    key: Seq<u8>,
)
    ensures
        ({
            let at = digest(Domain::StateLeaf, key);
            let stored = entries.dom().contains(at);
            &&& !stored ==> typed::<T>(entries, key) == Ok::<Option<T::V>, StateFault>(None)
            &&& stored ==> (parse_exact::<T>(entries[at]) matches Ok(v) ==> typed::<T>(
                entries,
                key,
            ) == Ok::<Option<T::V>, StateFault>(Some(v)))
            &&& stored ==> (parse_exact::<T>(entries[at]) matches Err(f) ==> typed::<T>(
                entries,
                key,
            ) == Err::<Option<T::V>, StateFault>(
                StateFault::Corrupt { key: text::hex(key), reason: f.text() },
            ))
        }),
{
}

/// The outcome of a typed read is the value or the fault, as it is, and the parts of a key
/// are taken in the order they are given in.
pub proof fn law_reads_are_passed_on<T: DeepView>(
    v: Option<T>,
    e: StateError,
    parts: Seq<&[u8]>,
    i: int,
)
    ensures
        typed_outcome(Ok::<Option<T>, StateError>(v)) == Ok::<Option<T::V>, StateFault>(
            v.deep_view(),
        ),
        typed_outcome(Err::<Option<T>, StateError>(e)) == Err::<Option<T::V>, StateFault>(
            e.deep_view(),
        ),
        part_views(parts).len() == parts.len(),
        0 <= i < parts.len() ==> part_views(parts)[i] == parts[i]@,
{
}

} // verus!
