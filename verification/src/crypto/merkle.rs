//! Merkle trees over ordered lists, with inclusion and consistency proofs.
//!
//! A tree of `n` leaves parts them at the largest power of two below `n`. An
//! inclusion proof shows that a leaf is at a place in a tree of a size; a
//! consistency proof shows that a smaller tree is a prefix of a larger one. Both
//! are checked against sizes and places that the verifier brings, because what a
//! proof says of itself proves nothing.

use crate::crypto::hash::{
    clash_free, digest, hash, hash_parts, lemma_hash_bytes_determine, Domain, Hash32, Preimage,
};
use vstd::prelude::*;

verus! {

/// Why a proof could not be made or was refused.
#[derive(Debug, Clone, Copy, PartialEq, Eq, Structural)]
pub enum MerkleError {
    /// No leaf at that index, or no tree of that size.
    OutOfRange,
    /// The proof is for another place or another tree than the verifier asked about.
    WrongPlace,
    /// The proof does not reconstruct the root.
    BadProof,
}

/// The digest of a leaf's bytes.
pub open spec fn leaf_of(bytes: Seq<u8>) -> Hash32 {
    digest(Domain::MerkleLeaf, bytes)
}

/// The digest of two subtrees.
pub open spec fn join(left: Hash32, right: Hash32) -> Hash32 {
    digest(Domain::MerkleNode, left.0@ + right.0@)
}

/// The largest power of two below `n`, for `n` of at least two.
pub open spec fn split(n: nat) -> nat
    decreases n,
{
    if n <= 2 {
        1
    } else {
        2 * split((n + 1) / 2)
    }
}

/// The root of a tree over some leaves.
pub open spec fn root_over(leaves: Seq<Hash32>) -> Hash32
    decreases leaves.len(),
{
    if leaves.len() == 0 {
        Hash32::all_zero()
    } else if leaves.len() == 1 {
        leaves[0]
    } else {
        let k = split(leaves.len()) as int;
        proof {
            lemma_split(leaves.len());
        }
        join(root_over(leaves.take(k)), root_over(leaves.skip(k)))
    }
}

/// The siblings on the way from a leaf to the root.
pub open spec fn path_to(leaves: Seq<Hash32>, index: int) -> Seq<Hash32>
    decreases leaves.len(),
{
    if leaves.len() <= 1 {
        Seq::empty()
    } else {
        let k = split(leaves.len()) as int;
        proof {
            lemma_split(leaves.len());
        }
        if index < k {
            path_to(leaves.take(k), index).push(root_over(leaves.skip(k)))
        } else {
            path_to(leaves.skip(k), index - k).push(root_over(leaves.take(k)))
        }
    }
}

/// The root that a leaf at a place in a tree of a size has with the given siblings.
pub open spec fn climbed(
    leaf: Hash32,
    index: int,
    total: nat,
    siblings: Seq<Hash32>,
) -> Option<Hash32>
    decreases total,
{
    if total <= 1 {
        if siblings.len() == 0 {
            Some(leaf)
        } else {
            None
        }
    } else if siblings.len() == 0 {
        None
    } else {
        let k = split(total);
        proof {
            lemma_split(total);
        }
        if index < k {
            match climbed(leaf, index, k, siblings.drop_last()) {
                Some(h) => Some(join(h, siblings.last())),
                None => None,
            }
        } else {
            match climbed(leaf, index - k, (total - k) as nat, siblings.drop_last()) {
                Some(h) => Some(join(siblings.last(), h)),
                None => None,
            }
        }
    }
}

/// The digests that show a tree of the first `old` leaves to be a prefix of the
/// whole; `whole` where the verifier knows the root of the smaller tree.
pub open spec fn growth_path(leaves: Seq<Hash32>, old: int, whole: bool) -> Seq<Hash32>
    decreases leaves.len(),
{
    if old >= leaves.len() || leaves.len() <= 1 {
        if whole {
            Seq::empty()
        } else {
            seq![root_over(leaves)]
        }
    } else {
        let k = split(leaves.len()) as int;
        proof {
            lemma_split(leaves.len());
        }
        if old <= k {
            growth_path(leaves.take(k), old, whole).push(root_over(leaves.skip(k)))
        } else {
            growth_path(leaves.skip(k), old - k, false).push(root_over(leaves.take(k)))
        }
    }
}

/// The roots of the smaller and of the larger tree that the given digests stand for.
pub open spec fn grown(
    old: int,
    new: nat,
    whole: Option<Hash32>,
    digests: Seq<Hash32>,
) -> Option<(Hash32, Hash32)>
    decreases new,
{
    if old >= new || new <= 1 {
        match whole {
            Some(root) => if digests.len() == 0 {
                Some((root, root))
            } else {
                None
            },
            None => if digests.len() == 1 {
                Some((digests[0], digests[0]))
            } else {
                None
            },
        }
    } else if digests.len() == 0 {
        None
    } else {
        let k = split(new);
        proof {
            lemma_split(new);
        }
        let last = digests.last();
        if old <= k {
            match grown(old, k, whole, digests.drop_last()) {
                Some((o, n)) => Some((o, join(n, last))),
                None => None,
            }
        } else {
            match grown(old - k, (new - k) as nat, None, digests.drop_last()) {
                Some((o, n)) => Some((join(last, o), join(last, n))),
                None => None,
            }
        }
    }
}

/// Whether digests show that a tree of `new` leaves with one root starts with a tree
/// of `old` leaves with another. The empty tree is a prefix of every tree.
pub open spec fn grows(
    old_root: Hash32,
    new_root: Hash32,
    old: nat,
    new: nat,
    digests: Seq<Hash32>,
) -> bool {
    if old == 0 {
        old_root == Hash32::all_zero() && digests.len() == 0
    } else {
        old <= new && grown(old as int, new, Some(old_root), digests) == Some((old_root, new_root))
    }
}

pub proof fn lemma_split(n: nat)
    ensures
        n >= 2 ==> 0 < split(n) < n && n <= 2 * split(n),
    decreases n,
{
    if n > 2 {
        lemma_split((n + 1) / 2);
    }
}

/// Between the split of a tree and its size, every size is split at the same place.
proof fn lemma_split_stays(n: nat, m: nat)
    requires
        2 <= n,
        split(n) < m <= n,
    ensures
        split(m) == split(n),
    decreases n,
{
    if n > 2 {
        lemma_split((n + 1) / 2);
        lemma_split_stays((n + 1) / 2, (m + 1) / 2);
    }
}

fn split_of(n: usize) -> (k: usize)
    requires
        2 <= n,
    ensures
        k == split(n as nat),
        0 < k < n,
    decreases n,
{
    proof {
        lemma_split(n as nat);
    }
    if n <= 2 {
        1
    } else {
        let half: usize = n / 2 + n % 2;
        2 * split_of(half)
    }
}

/// The digest of a leaf's bytes.
pub fn leaf_hash(bytes: &[u8]) -> (h: Hash32)
    ensures
        h == leaf_of(bytes@),
{
    hash(Domain::MerkleLeaf, bytes)
}

fn join_hash(left: Hash32, right: Hash32) -> (h: Hash32)
    ensures
        h == join(left, right),
{
    hash_parts(Domain::MerkleNode, left.as_bytes(), right.as_bytes())
}

/// The root over a stretch of leaves.
fn root_between(leaves: &[Hash32], from: usize, to: usize) -> (h: Hash32)
    requires
        from <= to <= leaves@.len(),
    ensures
        h == root_over(leaves@.subrange(from as int, to as int)),
    decreases to - from,
{
    let ghost part = leaves@.subrange(from as int, to as int);
    let n: usize = to - from;
    if n == 0 {
        Hash32::zero()
    } else if n == 1 {
        leaves[from]
    } else {
        let k: usize = split_of(n);
        assert(part.take(k as int) =~= leaves@.subrange(from as int, from + k));
        assert(part.skip(k as int) =~= leaves@.subrange(from + k, to as int));
        join_hash(root_between(leaves, from, from + k), root_between(leaves, from + k, to))
    }
}

/// Append the siblings on the way from a leaf to the root of a stretch.
fn path_between(leaves: &[Hash32], from: usize, to: usize, index: usize, out: &mut Vec<Hash32>)
    requires
        from <= to <= leaves@.len(),
        index < to - from,
    ensures
        final(out)@ == old(out)@ + path_to(
            leaves@.subrange(from as int, to as int),
            index as int,
        ),
    decreases to - from,
{
    let ghost part = leaves@.subrange(from as int, to as int);
    let n: usize = to - from;
    if n <= 1 {
        assert(out@ =~= old(out)@ + Seq::empty());
    } else {
        let k: usize = split_of(n);
        assert(part.take(k as int) =~= leaves@.subrange(from as int, from + k));
        assert(part.skip(k as int) =~= leaves@.subrange(from + k, to as int));
        if index < k {
            path_between(leaves, from, from + k, index, out);
            out.push(root_between(leaves, from + k, to));
        } else {
            path_between(leaves, from + k, to, index - k, out);
            out.push(root_between(leaves, from, from + k));
        }
        assert(out@ =~= old(out)@ + path_to(part, index as int));
    }
}

/// Append the digests that show a shorter stretch to be a prefix of a longer one.
fn growth_between(
    leaves: &[Hash32],
    from: usize,
    to: usize,
    old_size: usize,
    whole: bool,
    out: &mut Vec<Hash32>,
)
    requires
        from <= to <= leaves@.len(),
    ensures
        final(out)@ == old(out)@ + growth_path(
            leaves@.subrange(from as int, to as int),
            old_size as int,
            whole,
        ),
    decreases to - from,
{
    let ghost part = leaves@.subrange(from as int, to as int);
    let n: usize = to - from;
    if old_size >= n || n <= 1 {
        if !whole {
            out.push(root_between(leaves, from, to));
        }
        assert(out@ =~= old(out)@ + growth_path(part, old_size as int, whole));
    } else {
        let k: usize = split_of(n);
        assert(part.take(k as int) =~= leaves@.subrange(from as int, from + k));
        assert(part.skip(k as int) =~= leaves@.subrange(from + k, to as int));
        if old_size <= k {
            growth_between(leaves, from, from + k, old_size, whole, out);
            out.push(root_between(leaves, from + k, to));
        } else {
            growth_between(leaves, from + k, to, old_size - k, false, out);
            out.push(root_between(leaves, from, from + k));
        }
        assert(out@ =~= old(out)@ + growth_path(part, old_size as int, whole));
    }
}

/// A Merkle tree over an ordered list.
#[derive(Debug)]
pub struct MerkleTree {
    leaves: Vec<Hash32>,
}

impl View for MerkleTree {
    type V = Seq<Hash32>;

    closed spec fn view(&self) -> Seq<Hash32> {
        self.leaves@
    }
}

impl MerkleTree {
    /// A tree over leaves that are already hashed.
    pub fn from_leaf_hashes(leaves: Vec<Hash32>) -> (t: Self)
        ensures
            t@ == leaves@,
    {
        MerkleTree { leaves }
    }

    /// A tree over items, each hashed to its leaf.
    pub fn from_items(items: Vec<Vec<u8>>) -> (t: Self)
        ensures
            t@ == Seq::new(items@.len(), |i: int| leaf_of(items@[i]@)),
    {
        let mut leaves: Vec<Hash32> = Vec::new();
        let mut i: usize = 0;
        while i < items.len()
            invariant
                i <= items@.len(),
                leaves@ =~= Seq::new(i as nat, |j: int| leaf_of(items@[j]@)),
            decreases items@.len() - i,
        {
            leaves.push(leaf_hash(items[i].as_slice()));
            i += 1;
        }
        MerkleTree { leaves }
    }

    /// The root.
    pub fn root(&self) -> (h: Hash32)
        ensures
            h == root_over(self@),
    {
        let n = self.leaves.len();
        assert(self.leaves@.subrange(0, n as int) =~= self.leaves@);
        root_between(self.leaves.as_slice(), 0, n)
    }

    /// Prove that the leaf at `index` is where it is.
    pub fn prove(&self, index: usize) -> (r: Result<MerkleProof, MerkleError>)
        ensures
            match r {
                Ok(p) => {
                    &&& index < self@.len()
                    &&& p.index == index
                    &&& p.total == self@.len()
                    &&& p.siblings@ == path_to(self@, index as int)
                },
                Err(e) => index >= self@.len() && e == MerkleError::OutOfRange,
            },
    {
        let n = self.leaves.len();
        if index >= n {
            return Err(MerkleError::OutOfRange);
        }
        let mut siblings: Vec<Hash32> = Vec::new();
        assert(self.leaves@.subrange(0, n as int) =~= self.leaves@);
        path_between(self.leaves.as_slice(), 0, n, index, &mut siblings);
        assert(siblings@ =~= path_to(self@, index as int));
        Ok(MerkleProof { index, total: n, siblings })
    }

    /// Prove that the tree of the first `old_size` leaves is a prefix of this one.
    pub fn prove_consistency(&self, old_size: usize) -> (r: Result<ConsistencyProof, MerkleError>)
        ensures
            match r {
                Ok(p) => {
                    &&& old_size <= self@.len()
                    &&& p.old_size == old_size
                    &&& p.new_size == self@.len()
                    &&& p.digests@ == if old_size == 0 {
                        Seq::empty()
                    } else {
                        growth_path(self@, old_size as int, true)
                    }
                },
                Err(e) => old_size > self@.len() && e == MerkleError::OutOfRange,
            },
    {
        let n = self.leaves.len();
        if old_size > n {
            return Err(MerkleError::OutOfRange);
        }
        let mut digests: Vec<Hash32> = Vec::new();
        if old_size > 0 {
            assert(self.leaves@.subrange(0, n as int) =~= self.leaves@);
            growth_between(self.leaves.as_slice(), 0, n, old_size, true, &mut digests);
            assert(digests@ =~= growth_path(self@, old_size as int, true));
        }
        Ok(ConsistencyProof { old_size, new_size: n, digests })
    }
}

/// A proof that a leaf is at a place in a tree of a size.
#[derive(Debug, Clone, PartialEq, Eq)]
pub struct MerkleProof {
    /// The place, as the prover states it.
    pub index: usize,
    /// The size of the tree, as the prover states it.
    pub total: usize,
    /// The siblings from the leaf to the root.
    pub siblings: Vec<Hash32>,
}

/// The root that siblings lead to.
fn climb(leaf: Hash32, index: usize, total: usize, siblings: &[Hash32], len: usize) -> (r: Option<
    Hash32,
>)
    requires
        len <= siblings@.len(),
    ensures
        r == climbed(leaf, index as int, total as nat, siblings@.take(len as int)),
    decreases total,
{
    let ghost used = siblings@.take(len as int);
    if total <= 1 {
        if len == 0 {
            Some(leaf)
        } else {
            None
        }
    } else if len == 0 {
        None
    } else {
        let k: usize = split_of(total);
        let last = siblings[len - 1];
        assert(used.drop_last() =~= siblings@.take(len - 1));
        assert(used.last() == last);
        if index < k {
            match climb(leaf, index, k, siblings, len - 1) {
                Some(h) => Some(join_hash(h, last)),
                None => None,
            }
        } else {
            match climb(leaf, index - k, total - k, siblings, len - 1) {
                Some(h) => Some(join_hash(last, h)),
                None => None,
            }
        }
    }
}

impl MerkleProof {
    /// Check that `leaf` is at `index` in a tree of `total` leaves with a root.
    ///
    /// The place and the size are the verifier's own: a proof's are the prover's.
    pub fn verify(&self, root: Hash32, leaf: Hash32, index: usize, total: usize) -> (r: Result<
        (),
        MerkleError,
    >)
        ensures
            r == if self.index != index || self.total != total || index >= total {
                Err::<(), MerkleError>(MerkleError::WrongPlace)
            } else if climbed(leaf, index as int, total as nat, self.siblings@) == Some(root) {
                Ok(())
            } else {
                Err(MerkleError::BadProof)
            },
    {
        if self.index != index || self.total != total || index >= total {
            return Err(MerkleError::WrongPlace);
        }
        let n = self.siblings.len();
        assert(self.siblings@.take(n as int) =~= self.siblings@);
        match climb(leaf, index, total, self.siblings.as_slice(), n) {
            Some(h) => if h.same(&root) {
                Ok(())
            } else {
                Err(MerkleError::BadProof)
            },
            None => Err(MerkleError::BadProof),
        }
    }
}

/// A proof that one tree is a prefix of another.
#[derive(Debug, Clone, PartialEq, Eq)]
pub struct ConsistencyProof {
    /// The size of the smaller tree, as the prover states it.
    pub old_size: usize,
    /// The size of the larger tree, as the prover states it.
    pub new_size: usize,
    /// The digests that rebuild both roots.
    pub digests: Vec<Hash32>,
}

/// The roots that digests rebuild.
fn regrow(old_size: usize, new_size: usize, whole: Option<Hash32>, digests: &[Hash32], len: usize)
    -> (r: Option<(Hash32, Hash32)>)
    requires
        len <= digests@.len(),
    ensures
        r == grown(old_size as int, new_size as nat, whole, digests@.take(len as int)),
    decreases new_size,
{
    let ghost used = digests@.take(len as int);
    if old_size >= new_size || new_size <= 1 {
        match whole {
            Some(root) => if len == 0 {
                Some((root, root))
            } else {
                None
            },
            None => if len == 1 {
                Some((digests[0], digests[0]))
            } else {
                None
            },
        }
    } else if len == 0 {
        None
    } else {
        let k: usize = split_of(new_size);
        let last = digests[len - 1];
        assert(used.drop_last() =~= digests@.take(len - 1));
        assert(used.last() == last);
        if old_size <= k {
            match regrow(old_size, k, whole, digests, len - 1) {
                Some((o, n)) => Some((o, join_hash(n, last))),
                None => None,
            }
        } else {
            match regrow(old_size - k, new_size - k, None, digests, len - 1) {
                Some((o, n)) => Some((join_hash(last, o), join_hash(last, n))),
                None => None,
            }
        }
    }
}

impl ConsistencyProof {
    /// Check that the tree of `new` leaves with `new_root` starts with the tree of
    /// `old` leaves with `old_root`. The sizes are the verifier's own.
    pub fn verify(
        &self,
        old_root: Hash32,
        new_root: Hash32,
        old_size: usize,
        new_size: usize,
    ) -> (r: Result<(), MerkleError>)
        ensures
            r == if self.old_size != old_size || self.new_size != new_size {
                Err::<(), MerkleError>(MerkleError::WrongPlace)
            } else if grows(
                old_root,
                new_root,
                old_size as nat,
                new_size as nat,
                self.digests@,
            ) {
                Ok(())
            } else {
                Err(MerkleError::BadProof)
            },
    {
        if self.old_size != old_size || self.new_size != new_size {
            return Err(MerkleError::WrongPlace);
        }
        let n = self.digests.len();
        if old_size == 0 {
            return if old_root.same(&Hash32::zero()) && n == 0 {
                Ok(())
            } else {
                Err(MerkleError::BadProof)
            };
        }
        if old_size > new_size {
            return Err(MerkleError::BadProof);
        }
        assert(self.digests@.take(n as int) =~= self.digests@);
        match regrow(old_size, new_size, Some(old_root), self.digests.as_slice(), n) {
            Some((o, w)) => if o.same(&old_root) && w.same(&new_root) {
                Ok(())
            } else {
                Err(MerkleError::BadProof)
            },
            None => Err(MerkleError::BadProof),
        }
    }
}

// ---------------------------------------------------------------------------
// What proofs show
// ---------------------------------------------------------------------------

/// Every leaf can be proved: the siblings on its way lead to the root.
pub proof fn law_inclusion_proofs_are_complete(leaves: Seq<Hash32>, index: int)
    requires
        0 <= index < leaves.len(),
    ensures
        climbed(leaves[index], index, leaves.len(), path_to(leaves, index)) == Some(
            root_over(leaves),
        ),
    decreases leaves.len(),
{
    if leaves.len() > 1 {
        let k = split(leaves.len()) as int;
        lemma_split(leaves.len());
        let path = path_to(leaves, index);
        if index < k {
            law_inclusion_proofs_are_complete(leaves.take(k), index);
            assert(path.drop_last() =~= path_to(leaves.take(k), index));
        } else {
            law_inclusion_proofs_are_complete(leaves.skip(k), index - k);
            assert(path.drop_last() =~= path_to(leaves.skip(k), index - k));
        }
    }
}

/// What is hashed in a tree over some leaves, above the leaves.
pub open spec fn joined_in(leaves: Seq<Hash32>) -> Set<Preimage>
    decreases leaves.len(),
{
    if leaves.len() <= 1 {
        Set::empty()
    } else {
        let k = split(leaves.len()) as int;
        proof {
            lemma_split(leaves.len());
        }
        let (l, r) = (leaves.take(k), leaves.skip(k));
        joined_in(l).union(joined_in(r)).insert(join_preimage(root_over(l), root_over(r)))
    }
}

/// What is hashed to join two subtrees.
pub open spec fn join_preimage(left: Hash32, right: Hash32) -> Preimage {
    Preimage { domain: Domain::MerkleNode, bytes: left.0@ + right.0@ }
}

/// What is hashed on the way from a leaf to the root.
pub open spec fn joined_climbing(
    leaf: Hash32,
    index: int,
    total: nat,
    siblings: Seq<Hash32>,
) -> Set<Preimage>
    decreases total,
{
    if total <= 1 || siblings.len() == 0 {
        Set::empty()
    } else {
        let k = split(total);
        proof {
            lemma_split(total);
        }
        let low = siblings.drop_last();
        if index < k {
            match climbed(leaf, index, k, low) {
                Some(h) => joined_climbing(leaf, index, k, low).insert(
                    join_preimage(h, siblings.last()),
                ),
                None => Set::empty(),
            }
        } else {
            match climbed(leaf, index - k, (total - k) as nat, low) {
                Some(h) => joined_climbing(leaf, index - k, (total - k) as nat, low).insert(
                    join_preimage(siblings.last(), h),
                ),
                None => Set::empty(),
            }
        }
    }
}

/// Joined digests determine their parts, where no two of the hashed preimages clash.
proof fn lemma_join_binds(hashed: Set<Preimage>, a: Hash32, b: Hash32, c: Hash32, d: Hash32)
    requires
        clash_free(hashed),
        hashed.contains(join_preimage(a, b)),
        hashed.contains(join_preimage(c, d)),
        join(a, b) == join(c, d),
    ensures
        a == c,
        b == d,
{
    let x = join_preimage(a, b);
    let y = join_preimage(c, d);
    assert(x.hash() == y.hash());
    assert(x == y);
    assert((a.0@ + b.0@).take(32) =~= a.0@);
    assert((c.0@ + d.0@).take(32) =~= c.0@);
    assert((a.0@ + b.0@).skip(32) =~= b.0@);
    assert((c.0@ + d.0@).skip(32) =~= d.0@);
    lemma_hash_bytes_determine(a, c);
    lemma_hash_bytes_determine(b, d);
}

/// Nothing that is not there can be proved: a proof that leads to the root of a tree
/// of the right size is a proof of the leaf that is at that place, as long as no two
/// of the hashed preimages clash.
pub proof fn law_inclusion_proofs_are_sound(
    leaves: Seq<Hash32>,
    leaf: Hash32,
    index: int,
    siblings: Seq<Hash32>,
    hashed: Set<Preimage>,
)
    requires
        0 <= index < leaves.len(),
        clash_free(hashed),
        joined_in(leaves).subset_of(hashed),
        joined_climbing(leaf, index, leaves.len(), siblings).subset_of(hashed),
        climbed(leaf, index, leaves.len(), siblings) == Some(root_over(leaves)),
    ensures
        leaf == leaves[index],
    decreases leaves.len(),
{
    if leaves.len() > 1 {
        let total = leaves.len();
        let k = split(total) as int;
        lemma_split(total);
        let low = siblings.drop_last();
        let l = root_over(leaves.take(k));
        let r = root_over(leaves.skip(k));
        assert(joined_in(leaves).contains(join_preimage(l, r)));
        assert(joined_in(leaves.take(k)).subset_of(joined_in(leaves)));
        assert(joined_in(leaves.skip(k)).subset_of(joined_in(leaves)));
        let all = joined_climbing(leaf, index, total, siblings);
        if index < k {
            let h = climbed(leaf, index, k as nat, low)->0;
            assert(all.contains(join_preimage(h, siblings.last())));
            lemma_join_binds(hashed, h, siblings.last(), l, r);
            assert(joined_climbing(leaf, index, k as nat, low).subset_of(all));
            law_inclusion_proofs_are_sound(leaves.take(k), leaf, index, low, hashed);
        } else {
            let h = climbed(leaf, index - k, (total - k) as nat, low)->0;
            assert(all.contains(join_preimage(siblings.last(), h)));
            lemma_join_binds(hashed, siblings.last(), h, l, r);
            assert(joined_climbing(leaf, index - k, (total - k) as nat, low).subset_of(all));
            law_inclusion_proofs_are_sound(leaves.skip(k), leaf, index - k, low, hashed);
        }
    }
}

/// The leaves of a tree over items.
pub open spec fn leaves_of(items: Seq<Seq<u8>>) -> Seq<Hash32> {
    Seq::new(items.len(), |i: int| leaf_of(items[i]))
}

/// What is hashed to make a leaf of an item.
pub open spec fn leaf_preimage(item: Seq<u8>) -> Preimage {
    Preimage { domain: Domain::MerkleLeaf, bytes: item }
}

/// Whether a set holds everything that is hashed to build the tree over some items, and
/// to check an inclusion proof of an item.
pub open spec fn all_hashed(
    hashed: Set<Preimage>,
    items: Seq<Seq<u8>>,
    item: Seq<u8>,
    index: int,
    total: nat,
    siblings: Seq<Hash32>,
) -> bool {
    &&& joined_in(leaves_of(items)).subset_of(hashed)
    &&& joined_climbing(leaf_of(item), index, total, siblings).subset_of(hashed)
    &&& hashed.contains(leaf_preimage(item))
    &&& forall|i: int|
        0 <= i < items.len() ==> hashed.contains(#[trigger] leaf_preimage(items[i]))
}

/// Even where the place and the size are the prover's to choose, only an item of the
/// tree has an inclusion proof, unless hashes clash.
pub proof fn law_only_members_have_inclusion_proofs(
    items: Seq<Seq<u8>>,
    item: Seq<u8>,
    index: int,
    total: nat,
    siblings: Seq<Hash32>,
    hashed: Set<Preimage>,
)
    requires
        clash_free(hashed),
        all_hashed(hashed, items, item, index, total, siblings),
        climbed(leaf_of(item), index, total, siblings) == Some(root_over(leaves_of(items))),
    ensures
        items.contains(item),
    decreases items.len(),
{
    let leaves = leaves_of(items);
    let leaf = leaf_of(item);
    assert(leaf_preimage(item).hash() == leaf);
    let all = joined_climbing(leaf, index, total, siblings);
    let inner = total > 1;
    let low = siblings.drop_last();
    let at = split(total);
    lemma_split(total);
    // What the topmost join on the way hashes, if there is one.
    let (a, b) = if index < at {
        (climbed(leaf, index, at, low)->0, siblings.last())
    } else {
        (siblings.last(), climbed(leaf, index - at, (total - at) as nat, low)->0)
    };
    if inner {
        assert(all.contains(join_preimage(a, b)));
        assert(join_preimage(a, b).hash() == join(a, b));
    }
    if items.len() == 0 {
        if inner {
            assert(hashed.contains(join_preimage(a, b)));
        }
    } else if items.len() == 1 {
        assert(leaf_preimage(items[0]).hash() == leaves[0]);
        assert(hashed.contains(leaf_preimage(items[0])));
        if inner {
            assert(hashed.contains(join_preimage(a, b)));
            assert(join_preimage(a, b) == leaf_preimage(items[0]));
        } else {
            assert(leaf_preimage(item) == leaf_preimage(items[0]));
            assert(items[0] == item);
        }
    } else {
        let k = split(items.len()) as int;
        lemma_split(items.len());
        let (left, right) = (items.take(k), items.skip(k));
        assert(leaves.take(k) =~= leaves_of(left));
        assert(leaves.skip(k) =~= leaves_of(right));
        let (l, r) = (root_over(leaves.take(k)), root_over(leaves.skip(k)));
        assert(joined_in(leaves).contains(join_preimage(l, r)));
        assert(joined_in(leaves.take(k)).subset_of(joined_in(leaves)));
        assert(joined_in(leaves.skip(k)).subset_of(joined_in(leaves)));
        assert(join_preimage(l, r).hash() == join(l, r));
        if inner {
            lemma_join_binds(hashed, a, b, l, r);
            if index < at {
                assert(joined_climbing(leaf, index, at, low).subset_of(all));
                assert forall|i: int| 0 <= i < left.len() implies hashed.contains(
                    #[trigger] leaf_preimage(left[i]),
                ) by {
                    assert(left[i] == items[i]);
                    assert(hashed.contains(leaf_preimage(items[i])));
                }
                law_only_members_have_inclusion_proofs(left, item, index, at, low, hashed);
                let i = choose|i: int| 0 <= i < left.len() && left[i] == item;
                assert(items[i] == item);
            } else {
                let (place, size) = (index - at, (total - at) as nat);
                assert(joined_climbing(leaf, place, size, low).subset_of(all));
                assert forall|i: int| 0 <= i < right.len() implies hashed.contains(
                    #[trigger] leaf_preimage(right[i]),
                ) by {
                    assert(right[i] == items[i + k]);
                    assert(hashed.contains(leaf_preimage(items[i + k])));
                }
                law_only_members_have_inclusion_proofs(right, item, place, size, low, hashed);
                let i = choose|i: int| 0 <= i < right.len() && right[i] == item;
                assert(items[i + k] == item);
            }
        } else {
            assert(hashed.contains(join_preimage(l, r)));
            assert(join_preimage(l, r) == leaf_preimage(item));
        }
    }
}

proof fn lemma_prefix_of_split(leaves: Seq<Hash32>, old: int)
    requires
        leaves.len() >= 2,
        split(leaves.len()) < old <= leaves.len(),
    ensures
        ({
            let k = split(leaves.len()) as int;
            root_over(leaves.take(old)) == join(
                root_over(leaves.take(k)),
                root_over(leaves.skip(k).take(old - k)),
            )
        }),
{
    let k = split(leaves.len()) as int;
    lemma_split(leaves.len());
    lemma_split_stays(leaves.len(), old as nat);
    let part = leaves.take(old);
    assert(part.take(k) =~= leaves.take(k));
    assert(part.skip(k) =~= leaves.skip(k).take(old - k));
}

proof fn lemma_growth_is_complete(leaves: Seq<Hash32>, old: int, whole: Option<Hash32>)
    requires
        0 < old <= leaves.len(),
        whole matches Some(root) ==> root == root_over(leaves.take(old)),
    ensures
        grown(old, leaves.len(), whole, growth_path(leaves, old, whole is Some)) == Some(
            (root_over(leaves.take(old)), root_over(leaves)),
        ),
    decreases leaves.len(),
{
    if old >= leaves.len() || leaves.len() <= 1 {
        assert(leaves.take(old) =~= leaves);
    } else {
        let k = split(leaves.len()) as int;
        lemma_split(leaves.len());
        let path = growth_path(leaves, old, whole is Some);
        if old <= k {
            assert(leaves.take(k).take(old) =~= leaves.take(old));
            lemma_growth_is_complete(leaves.take(k), old, whole);
            assert(path.drop_last() =~= growth_path(leaves.take(k), old, whole is Some));
        } else {
            lemma_growth_is_complete(leaves.skip(k), old - k, None);
            assert(path.drop_last() =~= growth_path(leaves.skip(k), old - k, false));
            lemma_prefix_of_split(leaves, old);
        }
    }
}

/// A log that only grew can always show it: for every earlier size there are digests
/// that reconcile the two roots.
pub proof fn law_consistency_proofs_are_complete(leaves: Seq<Hash32>, old: nat)
    requires
        old <= leaves.len(),
    ensures
        grows(
            root_over(leaves.take(old as int)),
            root_over(leaves),
            old,
            leaves.len(),
            if old == 0 {
                Seq::empty()
            } else {
                growth_path(leaves, old as int, true)
            },
        ),
{
    if old > 0 {
        lemma_growth_is_complete(
            leaves,
            old as int,
            Some(root_over(leaves.take(old as int))),
        );
    } else {
        assert(leaves.take(0).len() == 0);
    }
}

/// What is hashed to rebuild the root of the larger tree.
pub open spec fn joined_growing(
    old: int,
    new: nat,
    whole: Option<Hash32>,
    digests: Seq<Hash32>,
) -> Set<Preimage>
    decreases new,
{
    if old >= new || new <= 1 || digests.len() == 0 {
        Set::empty()
    } else {
        let k = split(new);
        proof {
            lemma_split(new);
        }
        let low = digests.drop_last();
        let last = digests.last();
        if old <= k {
            match grown(old, k, whole, low) {
                Some((o, n)) => joined_growing(old, k, whole, low).insert(join_preimage(n, last)),
                None => Set::empty(),
            }
        } else {
            match grown(old - k, (new - k) as nat, None, low) {
                Some((o, n)) => joined_growing(old - k, (new - k) as nat, None, low).insert(
                    join_preimage(last, n),
                ),
                None => Set::empty(),
            }
        }
    }
}

proof fn lemma_growth_is_sound(
    leaves: Seq<Hash32>,
    old: int,
    whole: Option<Hash32>,
    digests: Seq<Hash32>,
    hashed: Set<Preimage>,
)
    requires
        0 < old <= leaves.len(),
        clash_free(hashed),
        joined_in(leaves).subset_of(hashed),
        joined_growing(old, leaves.len(), whole, digests).subset_of(hashed),
        grown(old, leaves.len(), whole, digests) is Some,
        (grown(old, leaves.len(), whole, digests)->0).1 == root_over(leaves),
    ensures
        (grown(old, leaves.len(), whole, digests)->0).0 == root_over(leaves.take(old)),
    decreases leaves.len(),
{
    if old >= leaves.len() || leaves.len() <= 1 {
        assert(leaves.take(old) =~= leaves);
    } else {
        let new = leaves.len();
        let k = split(new) as int;
        lemma_split(new);
        let low = digests.drop_last();
        let last = digests.last();
        let l = root_over(leaves.take(k));
        let r = root_over(leaves.skip(k));
        assert(joined_in(leaves).contains(join_preimage(l, r)));
        assert(joined_in(leaves.take(k)).subset_of(joined_in(leaves)));
        assert(joined_in(leaves.skip(k)).subset_of(joined_in(leaves)));
        let all = joined_growing(old, new, whole, digests);
        if old <= k {
            let n = (grown(old, k as nat, whole, low)->0).1;
            assert(all.contains(join_preimage(n, last)));
            lemma_join_binds(hashed, n, last, l, r);
            assert(joined_growing(old, k as nat, whole, low).subset_of(all));
            lemma_growth_is_sound(leaves.take(k), old, whole, low, hashed);
            assert(leaves.take(k).take(old) =~= leaves.take(old));
        } else {
            let n = (grown(old - k, (new - k) as nat, None, low)->0).1;
            assert(all.contains(join_preimage(last, n)));
            lemma_join_binds(hashed, last, n, l, r);
            assert(joined_growing(old - k, (new - k) as nat, None, low).subset_of(all));
            lemma_growth_is_sound(leaves.skip(k), old - k, None, low, hashed);
            lemma_prefix_of_split(leaves, old);
        }
    }
}

/// Two trees of one size with one root have the same leaves, as long as no two of
/// the hashed preimages clash.
pub proof fn law_root_commits_to_leaves(a: Seq<Hash32>, b: Seq<Hash32>, hashed: Set<Preimage>)
    requires
        a.len() == b.len(),
        clash_free(hashed),
        joined_in(a).subset_of(hashed),
        joined_in(b).subset_of(hashed),
        root_over(a) == root_over(b),
    ensures
        a == b,
    decreases a.len(),
{
    if a.len() == 0 {
        assert(a =~= b);
    } else if a.len() == 1 {
        assert(a =~= b);
    } else {
        let k = split(a.len()) as int;
        lemma_split(a.len());
        let (al, ar) = (a.take(k), a.skip(k));
        let (bl, br) = (b.take(k), b.skip(k));
        assert(joined_in(a).contains(join_preimage(root_over(al), root_over(ar))));
        assert(joined_in(b).contains(join_preimage(root_over(bl), root_over(br))));
        lemma_join_binds(hashed, root_over(al), root_over(ar), root_over(bl), root_over(br));
        assert(joined_in(al).subset_of(joined_in(a)));
        assert(joined_in(ar).subset_of(joined_in(a)));
        assert(joined_in(bl).subset_of(joined_in(b)));
        assert(joined_in(br).subset_of(joined_in(b)));
        law_root_commits_to_leaves(al, bl, hashed);
        law_root_commits_to_leaves(ar, br, hashed);
        assert(a =~= al + ar);
        assert(b =~= bl + br);
    }
}

/// A log that rewrote or dropped anything cannot show otherwise: where a proof
/// reconciles the root of an earlier list with the root of a later one, the earlier
/// list is a prefix of the later, as long as no two of the hashed preimages clash.
pub proof fn law_consistency_proofs_are_sound(
    earlier: Seq<Hash32>,
    later: Seq<Hash32>,
    digests: Seq<Hash32>,
    hashed: Set<Preimage>,
)
    requires
        clash_free(hashed),
        joined_in(earlier).subset_of(hashed),
        joined_in(later).subset_of(hashed),
        joined_in(later.take(earlier.len() as int)).subset_of(hashed),
        joined_growing(
            earlier.len() as int,
            later.len(),
            Some(root_over(earlier)),
            digests,
        ).subset_of(hashed),
        grows(root_over(earlier), root_over(later), earlier.len(), later.len(), digests),
    ensures
        earlier.len() <= later.len(),
        earlier == later.take(earlier.len() as int),
{
    let old = earlier.len() as int;
    if old == 0 {
        assert(earlier =~= later.take(0));
    } else {
        lemma_growth_is_sound(later, old, Some(root_over(earlier)), digests, hashed);
        law_root_commits_to_leaves(earlier, later.take(old), hashed);
    }
}

} // verus!
