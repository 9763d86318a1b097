use afrolink::crypto::hash::Hash32;
use afrolink::state::membership::{key_hash, leaf_hash, node_hash, Proof, ProofLeaf};
use afrolink::state::smt::SparseMerkleTree;
use std::collections::BTreeMap;

/// Roots and proofs computed from a flat map of entries, with no structure kept.
#[derive(Default, Clone)]
struct Reference {
    entries: BTreeMap<Hash32, Vec<u8>>,
}

impl Reference {
    fn insert(&mut self, key: &[u8], value: Vec<u8>) {
        self.entries.insert(key_hash(key), value);
    }

    fn remove(&mut self, key: &[u8]) -> bool {
        self.entries.remove(&key_hash(key)).is_some()
    }

    fn get(&self, key: &[u8]) -> Option<&Vec<u8>> {
        self.entries.get(&key_hash(key))
    }

    fn len(&self) -> usize {
        self.entries.len()
    }

    fn root(&self) -> Hash32 {
        let items: Vec<(Hash32, &Vec<u8>)> = self.entries.iter().map(|(k, v)| (*k, v)).collect();
        Self::root_of(&items, 0)
    }

    fn root_of(items: &[(Hash32, &Vec<u8>)], depth: usize) -> Hash32 {
        match items {
            [] => Hash32::zero(),
            [(k, v)] => leaf_hash(*k, v),
            _ => {
                if depth >= 256 {
                    return Hash32::zero();
                }
                let split = items.partition_point(|(k, _)| !k.bit(depth));
                let (left, right) = items.split_at(split);
                node_hash(
                    Self::root_of(left, depth + 1),
                    Self::root_of(right, depth + 1),
                )
            }
        }
    }

    fn prove(&self, key: &[u8]) -> Proof {
        let kh = key_hash(key);
        let items: Vec<(Hash32, &Vec<u8>)> = self.entries.iter().map(|(k, v)| (*k, v)).collect();
        let mut siblings = Vec::new();
        let leaf = Self::descend(&items, kh, 0, &mut siblings);
        Proof { siblings, leaf }
    }

    fn descend(
        items: &[(Hash32, &Vec<u8>)],
        kh: Hash32,
        depth: usize,
        siblings: &mut Vec<Hash32>,
    ) -> ProofLeaf {
        match items {
            [] => ProofLeaf::Absent,
            [(k, v)] => {
                if *k == kh {
                    ProofLeaf::Present {
                        value: (*v).clone(),
                    }
                } else {
                    ProofLeaf::AbsentOccupied {
                        other_key_hash: *k,
                        other_value: (*v).clone(),
                    }
                }
            }
            _ => {
                if depth >= 256 {
                    return ProofLeaf::Absent;
                }
                let split = items.partition_point(|(k, _)| !k.bit(depth));
                let (left, right) = items.split_at(split);
                if kh.bit(depth) {
                    siblings.push(Self::root_of(left, depth + 1));
                    Self::descend(right, kh, depth + 1, siblings)
                } else {
                    siblings.push(Self::root_of(right, depth + 1));
                    Self::descend(left, kh, depth + 1, siblings)
                }
            }
        }
    }

    fn entries(&self) -> Vec<(Hash32, Vec<u8>)> {
        self.entries.iter().map(|(k, v)| (*k, v.clone())).collect()
    }
}

/// A deterministic generator, so a failure is reproducible from its seed alone.
struct Rng(u64);

impl Rng {
    fn next(&mut self) -> u64 {
        let mut x = self.0;
        x ^= x >> 12;
        x ^= x << 25;
        x ^= x >> 27;
        self.0 = x;
        x.wrapping_mul(0x2545_F491_4F6C_DD1D)
    }

    fn below(&mut self, n: u64) -> u64 {
        self.next() % n.max(1)
    }
}

fn check(seed: u64, operations: usize, key_space: u64) {
    let mut rng = Rng(seed);
    let mut tree = SparseMerkleTree::new();
    let mut reference = Reference::default();

    for step in 0..operations {
        let k = format!("key/{}", rng.below(key_space));
        let key = k.as_bytes();
        match rng.below(10) {
            0..=3 => {
                let a = tree.remove(key);
                let b = reference.remove(key);
                assert_eq!(a, b, "seed {seed} step {step}: remove disagreed on {k}");
            }
            _ => {
                let value = vec![u8::try_from(rng.below(251)).unwrap_or(0); 1 + (step % 5)];
                tree.insert(key, value.clone());
                reference.insert(key, value);
            }
        }

        assert_eq!(
            tree.root(),
            reference.root(),
            "seed {seed} step {step}: roots diverged after touching {k}"
        );
        assert_eq!(
            tree.len(),
            reference.len(),
            "seed {seed} step {step}: lengths diverged"
        );
    }

    for i in 0..key_space.saturating_mul(2) {
        let k = format!("key/{i}");
        let key = k.as_bytes();
        assert_eq!(
            tree.get(key),
            reference.get(key),
            "seed {seed}: get disagreed on {k}"
        );
        let mine = tree.prove(key);
        let theirs = reference.prove(key);
        assert_eq!(mine, theirs, "seed {seed}: proofs diverged for {k}");
        assert!(
            mine.verify(tree.root(), key, reference.get(key).map(Vec::as_slice)),
            "seed {seed}: own proof failed to verify for {k}"
        );
    }

    let mine: Vec<(Hash32, Vec<u8>)> = tree
        .entries()
        .into_iter()
        .map(|(k, v)| (k, v.clone()))
        .collect();
    assert_eq!(
        mine,
        reference.entries(),
        "seed {seed}: iteration order or contents diverged"
    );
}

/// Random histories for some seeds. Small key spaces force deep branches that
/// repeatedly collapse and form again.
fn check_seeds(first: u64, last: u64) {
    for seed in first..=last {
        check(seed, 300, 12);
        check(seed, 300, 64);
        check(seed, 600, 400);
    }
}

#[test]
fn the_tree_agrees_with_the_old_implementation_on_random_histories() {
    check_seeds(1, 6);
}

#[test]
fn the_tree_agrees_on_random_histories_from_the_seventh() {
    check_seeds(7, 12);
}

#[test]
fn the_tree_agrees_on_random_histories_from_the_thirteenth() {
    check_seeds(13, 18);
}

#[test]
fn the_tree_agrees_on_random_histories_from_the_nineteenth() {
    check_seeds(19, 24);
}

#[test]
fn a_tree_emptied_key_by_key_returns_to_the_empty_root() {
    for seed in 1..=16u64 {
        let mut rng = Rng(seed);
        let mut tree = SparseMerkleTree::new();
        let mut keys: Vec<String> = (0..80).map(|i| format!("acct/{i}")).collect();
        for k in &keys {
            tree.insert(k.as_bytes(), vec![7; 4]);
        }
        let full = tree.root();

        for i in (1..keys.len()).rev() {
            let j = usize::try_from(rng.below(u64::try_from(i + 1).unwrap_or(1))).unwrap_or(0);
            keys.swap(i, j);
        }
        for k in &keys {
            assert!(tree.remove(k.as_bytes()));
        }
        assert_eq!(
            tree.root(),
            Hash32::zero(),
            "seed {seed}: an emptied tree is not empty"
        );
        assert_eq!(tree.len(), 0);

        for k in &keys {
            tree.insert(k.as_bytes(), vec![7; 4]);
        }
        assert_eq!(
            tree.root(),
            full,
            "seed {seed}: rebuilt tree has a different root"
        );
    }
}

#[test]
fn removing_the_second_of_two_deep_neighbours_collapses_the_branch() {
    let mut pair = SparseMerkleTree::new();
    let mut alone = SparseMerkleTree::new();

    let mut best: Option<(String, String, usize)> = None;
    for i in 0..3_000u32 {
        for j in (i + 1)..(i + 40).min(3_000) {
            let a = format!("k{i}");
            let b = format!("k{j}");
            let (ha, hb) = (key_hash(a.as_bytes()), key_hash(b.as_bytes()));
            let shared = (0..256).take_while(|d| ha.bit(*d) == hb.bit(*d)).count();
            if shared >= 4 && best.as_ref().is_none_or(|(_, _, s)| shared > *s) {
                best = Some((a, b, shared));
            }
        }
    }
    let (a, b, shared) = best.expect("two keys sharing a prefix exist");
    assert!(shared >= 4, "wanted a deep branch, got {shared} bits");

    pair.insert(a.as_bytes(), vec![1]);
    pair.insert(b.as_bytes(), vec![2]);
    alone.insert(a.as_bytes(), vec![1]);

    assert!(pair.remove(b.as_bytes()));
    assert_eq!(
        pair.root(),
        alone.root(),
        "a branch left holding one leaf must hash as that leaf"
    );
    assert_eq!(pair.prove(a.as_bytes()), alone.prove(a.as_bytes()));
}
