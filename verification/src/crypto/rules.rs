//! What is hashed, signed and joined, rule by rule.
//!
//! The laws here put digests, addresses, bits and Merkle trees in terms of the bytes they
//! are made of.

use crate::crypto::address::{
    address_in, address_named, address_text, bech32m_parts, bech32m_text, key_address, Address,
};
use crate::crypto::hash::{byte_bit, derived_key, digest, Domain, Hash32};
use crate::crypto::keys::{decompresses, signature_accepted, signed_by, valid_key, Signature};
use crate::crypto::merkle::{
    climbed, grown, grows, growth_path, join, leaf_of, leaves_of, lemma_split, path_to, root_over,
    split,
};
use crate::primitives::wire;
use vstd::arithmetic::power2::pow2;
use vstd::prelude::*;

verus! {

/// A digest is the derived key of its bytes under the context of its purpose, and what a
/// purpose's context reads.
pub proof fn law_every_purpose_has_its_context(domain: Domain, bytes: Seq<u8>)
    ensures
        digest(domain, bytes).0 == derived_key(domain.text(), bytes),
        Domain::Address.text() == "afrolink/address"@,
        Domain::ModuleAddress.text() == "afrolink/module-address"@,
        Domain::StateLeaf.text() == "afrolink/state-leaf"@,
        Domain::StateNode.text() == "afrolink/state-node"@,
        Domain::TxId.text() == "afrolink/tx-id"@,
        Domain::TxSignDoc.text() == "afrolink/tx-sign-doc"@,
        Domain::VoteSignDoc.text() == "afrolink/vote-sign-doc"@,
        Domain::ValidatorSet.text() == "afrolink/validator-set"@,
        Domain::BlockHeader.text() == "afrolink/block-header"@,
        Domain::MerkleLeaf.text() == "afrolink/merkle-leaf"@,
        Domain::MerkleNode.text() == "afrolink/merkle-node"@,
        Domain::WitnessLogId.text() == "afrolink/witness-log-id"@,
        Domain::WitnessEntry.text() == "afrolink/witness-entry"@,
        Domain::TreeHeadSignDoc.text() == "afrolink/tree-head-sign-doc"@,
{
}

/// The bits of a digest are those of its bytes in order, and of each byte the highest
/// first.
pub proof fn law_bits_are_read_from_the_highest(h: Hash32, i: int)
    requires
        0 <= i < 256,
    ensures
        h.bit_at(i) <==> (h.0@[i / 8] as int / pow2((7 - i % 8) as nat) as int) % 2 == 1,
{
    let b = h.0@[i / 8];
    let k = i % 8;
    vstd::arithmetic::power2::lemma2_to64();
    assert(byte_bit(b, k) == h.bit_at(i));
    assert((b & 128 != 0) == ((b / 128) % 2 == 1)) by (bit_vector);
    assert((b & 64 != 0) == ((b / 64) % 2 == 1)) by (bit_vector);
    assert((b & 32 != 0) == ((b / 32) % 2 == 1)) by (bit_vector);
    assert((b & 16 != 0) == ((b / 16) % 2 == 1)) by (bit_vector);
    assert((b & 8 != 0) == ((b / 8) % 2 == 1)) by (bit_vector);
    assert((b & 4 != 0) == ((b / 4) % 2 == 1)) by (bit_vector);
    assert((b & 2 != 0) == ((b / 2) % 2 == 1)) by (bit_vector);
    assert((b & 1 != 0) == (b % 2 == 1)) by (bit_vector);
    let d = pow2((7 - k) as nat);
    assert(d == if k == 0 {
        128nat
    } else if k == 1 {
        64
    } else if k == 2 {
        32
    } else if k == 3 {
        16
    } else if k == 4 {
        8
    } else if k == 5 {
        4
    } else if k == 6 {
        2
    } else {
        1
    });
    assert(b as int / d as int == (b as nat / d));
    assert(byte_bit(b, k) <==> (b as int / d as int) % 2 == 1);
}

/// The digest of nothing is thirty-two zeros.
pub proof fn law_the_zero_digest()
    ensures
        Hash32::all_zero().0@ == Seq::new(32, |i: int| 0u8),
{
    assert(Hash32::all_zero().0@ =~= Seq::new(32, |i: int| 0u8));
}

/// An address is the first twenty bytes of a digest: of the key, for the account that the
/// key owns.
pub proof fn law_what_an_address_is(key: Seq<u8>, domain: Domain, bytes: Seq<u8>)
    ensures
        key_address(key).0@ == digest(Domain::Address, key).0@.subrange(0, 20),
        address_in(domain, bytes).0@ == digest(domain, bytes).0@.subrange(0, 20),
{
    let a = digest(Domain::Address, key).0@.take(20);
    let b = digest(domain, bytes).0@.take(20);
    wire::lemma_array_of::<20>(a);
    wire::lemma_array_of::<20>(b);
    assert(a =~= digest(Domain::Address, key).0@.subrange(0, 20));
    assert(b =~= digest(domain, bytes).0@.subrange(0, 20));
}

/// An address in text is its twenty bytes under the prefix `afri`; a text with another
/// prefix or of another length names no address.
pub proof fn law_how_an_address_is_written(a: Address, s: Seq<char>)
    ensures
        address_text(a) == bech32m_text("afri"@, a.0@),
        address_named(s) matches Some(n) ==> (bech32m_parts(s) matches Some((hrp, data)) && hrp
            == "afri"@ && data == n.0@),
        bech32m_parts(s) is None ==> address_named(s) is None,
        bech32m_parts(s) matches Some((hrp, data)) ==> (address_named(s) is Some <==> hrp
            == "afri"@ && data.len() == 20),
{
    if let Some((hrp, data)) = bech32m_parts(s) {
        if data.len() == 20 {
            wire::lemma_array_of::<20>(data);
        }
    }
}

/// A signature is the key's over the digest of the document under the purpose it was made
/// for, and a key is thirty-two bytes that decompress.
pub proof fn law_what_a_signature_covers(
    key: Seq<u8>,
    domain: Domain,
    document: Seq<u8>,
    signature: Signature,
)
    ensures
        signed_by(key, domain, document, signature) <==> signature_accepted(
            key,
            digest(domain, document).0@,
            signature.0@,
        ),
        valid_key(key) <==> key.len() == 32 && decompresses(key),
{
}

// ---------------------------------------------------------------------------
// Merkle trees
// ---------------------------------------------------------------------------

proof fn lemma_split_is_a_power(n: nat) -> (e: nat)
    requires
        n >= 2,
    ensures
        split(n) == pow2(e),
    decreases n,
{
    vstd::arithmetic::power2::lemma2_to64();
    if n <= 2 {
        0
    } else {
        let e = lemma_split_is_a_power((n + 1) / 2);
        vstd::arithmetic::power2::lemma_pow2_unfold(e + 1);
        e + 1
    }
}

/// Where a tree is split: at the greatest power of two below its size.
pub proof fn law_trees_split_at_a_power_of_two(n: nat)
    requires
        n >= 2,
    ensures
        split(n) < n <= 2 * split(n),
        exists|e: nat| split(n) == #[trigger] pow2(e),
{
    lemma_split(n);
    let e = lemma_split_is_a_power(n);
    assert(split(n) == pow2(e));
}

/// The root of a tree: zero without leaves, the leaf itself where there is one, and
/// otherwise the digest of the roots of its two parts, the first part being of a power of
/// two of leaves, as many as leave something for the second. Leaves and inner nodes are
/// hashed for different purposes.
pub proof fn law_what_a_root_is_made_of(first: Seq<Hash32>, second: Seq<Hash32>, bytes: Seq<u8>)
    requires
        second.len() > 0,
        second.len() <= first.len(),
        exists|e: nat| first.len() == #[trigger] pow2(e),
    ensures
        root_over(Seq::empty()) == Hash32::all_zero(),
        root_over(seq![second[0]]) == second[0],
        root_over(first + second) == digest(
            Domain::MerkleNode,
            root_over(first).0@ + root_over(second).0@,
        ),
        leaf_of(bytes) == digest(Domain::MerkleLeaf, bytes),
        forall|l: Hash32, r: Hash32| #[trigger]
            join(l, r) == digest(Domain::MerkleNode, l.0@ + r.0@),
{
    let all = first + second;
    let n = all.len();
    let e = choose|e: nat| first.len() == #[trigger] pow2(e);
    let f = lemma_split_is_a_power(n);
    lemma_split(n);
    lemma_powers_do_not_crowd(e, f, n);
    assert(all.take(first.len() as int) =~= first);
    assert(all.skip(first.len() as int) =~= second);
}

/// Two powers of two that are both the greatest below a number are one.
proof fn lemma_powers_do_not_crowd(e: nat, f: nat, n: nat)
    requires
        pow2(e) < n <= 2 * pow2(e),
        pow2(f) < n <= 2 * pow2(f),
    ensures
        pow2(e) == pow2(f),
{
    if e < f {
        vstd::arithmetic::power2::lemma_pow2_unfold(e + 1);
        if e + 1 < f {
            vstd::arithmetic::power2::lemma_pow2_strictly_increases(e + 1, f);
        }
    } else if f < e {
        vstd::arithmetic::power2::lemma_pow2_unfold(f + 1);
        if f + 1 < e {
            vstd::arithmetic::power2::lemma_pow2_strictly_increases(f + 1, e);
        }
    }
}

/// The leaves over items are the items' own digests, in their order.
pub proof fn law_leaves_are_the_items_digests(items: Seq<Seq<u8>>, i: int)
    requires
        0 <= i < items.len(),
    ensures
        leaves_of(items).len() == items.len(),
        leaves_of(items)[i] == digest(Domain::MerkleLeaf, items[i]),
{
}

/// A power of two that is below a number and at least half of it is where a tree of that
/// size is split.
proof fn lemma_split_is(k: nat, n: nat)
    requires
        exists|e: nat| k == #[trigger] pow2(e),
        k < n <= 2 * k,
    ensures
        split(n) == k,
{
    let e = choose|e: nat| k == #[trigger] pow2(e);
    vstd::arithmetic::power2::lemma_pow2_pos(e);
    let f = lemma_split_is_a_power(n);
    lemma_split(n);
    lemma_powers_do_not_crowd(e, f, n);
}

/// A path to a leaf goes from the leaf up: what is added last is the root of the part that
/// the leaf is not in. A single leaf has nothing beside it.
pub proof fn law_paths_go_from_the_leaf_up(first: Seq<Hash32>, second: Seq<Hash32>, i: int)
    requires
        second.len() > 0,
        second.len() <= first.len(),
        exists|e: nat| first.len() == #[trigger] pow2(e),
        0 <= i < first.len() + second.len(),
    ensures
        path_to(seq![second[0]], 0) == Seq::<Hash32>::empty(),
        i < first.len() ==> path_to(first + second, i) == path_to(first, i).push(
            root_over(second),
        ),
        i >= first.len() ==> path_to(first + second, i) == path_to(
            second,
            i - first.len(),
        ).push(root_over(first)),
{
    let all = first + second;
    lemma_split_is(first.len(), all.len());
    assert(all.take(first.len() as int) =~= first);
    assert(all.skip(first.len() as int) =~= second);
}

/// A path is climbed from the leaf up: the last sibling is joined last, on the side that
/// the leaf is not on. A path that is too short or too long leads nowhere.
pub proof fn law_how_a_path_is_climbed(
    leaf: Hash32,
    i: int,
    k: nat,
    total: nat,
    siblings: Seq<Hash32>,
    top: Hash32,
)
    requires
        exists|e: nat| k == #[trigger] pow2(e),
        k < total <= 2 * k,
        0 <= i < total,
    ensures
        climbed(leaf, 0, 1, Seq::empty()) == Some(leaf),
        climbed(leaf, 0, 1, siblings.push(top)) is None,
        climbed(leaf, i, total, Seq::empty()) is None,
        i < k ==> climbed(leaf, i, total, siblings.push(top)) == match climbed(
            leaf,
            i,
            k,
            siblings,
        ) {
            Some(h) => Some(digest(Domain::MerkleNode, h.0@ + top.0@)),
            None => None,
        },
        i >= k ==> climbed(leaf, i, total, siblings.push(top)) == match climbed(
            leaf,
            i - k,
            (total - k) as nat,
            siblings,
        ) {
            Some(h) => Some(digest(Domain::MerkleNode, top.0@ + h.0@)),
            None => None,
        },
{
    let e = choose|e: nat| k == #[trigger] pow2(e);
    vstd::arithmetic::power2::lemma_pow2_pos(e);
    lemma_split_is(k, total);
    assert(siblings.push(top).drop_last() =~= siblings);
}

/// What shows that a tree has grown goes from the bottom up too: the root of what was
/// added beside the part that the old tree ends in, or the root of the part before it.
/// A tree that has not grown needs nothing, or its own root where only a part of the old
/// tree is in it.
pub proof fn law_how_growth_is_shown(
    first: Seq<Hash32>,
    second: Seq<Hash32>,
    old_size: int,
    whole: bool,
)
    requires
        second.len() > 0,
        second.len() <= first.len(),
        exists|e: nat| first.len() == #[trigger] pow2(e),
        0 < old_size < first.len() + second.len(),
    ensures
        growth_path(second, second.len() as int, true) == Seq::<Hash32>::empty(),
        growth_path(second, second.len() as int, false) == seq![root_over(second)],
        old_size <= first.len() ==> growth_path(first + second, old_size, whole) == growth_path(
            first,
            old_size,
            whole,
        ).push(root_over(second)),
        old_size > first.len() ==> growth_path(first + second, old_size, whole) == growth_path(
            second,
            old_size - first.len(),
            false,
        ).push(root_over(first)),
{
    let all = first + second;
    lemma_split_is(first.len(), all.len());
    assert(all.take(first.len() as int) =~= first);
    assert(all.skip(first.len() as int) =~= second);
}

/// How growth is checked: an empty tree is a part of every tree, without any digests, and
/// its root is zero; a larger tree was never a part of a smaller one; and otherwise the
/// digests must lead from the old root to both roots.
pub proof fn law_how_growth_is_checked(
    old_root: Hash32,
    new_root: Hash32,
    old_size: nat,
    new_size: nat,
    digests: Seq<Hash32>,
)
    ensures
        old_size == 0 ==> (grows(old_root, new_root, old_size, new_size, digests) <==> old_root
            == Hash32::all_zero() && digests.len() == 0),
        old_size > new_size ==> !grows(old_root, new_root, old_size, new_size, digests)
            || old_size == 0,
        0 < old_size == new_size ==> (grows(old_root, new_root, old_size, new_size, digests)
            <==> old_root == new_root && digests.len() == 0),
        0 < old_size <= new_size ==> (grows(old_root, new_root, old_size, new_size, digests)
            <==> grown(old_size as int, new_size, Some(old_root), digests) == Some(
            (old_root, new_root),
        )),
{
}

} // verus!
