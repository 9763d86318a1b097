use afrolink::crypto::hash::Hash32;
use afrolink::state::smt::SparseMerkleTree;

fn tree_with(n: usize) -> SparseMerkleTree {
    let mut t = SparseMerkleTree::new();
    for i in 0..n {
        t.insert(
            format!("account/{i}").as_bytes(),
            format!("balance:{i}").into_bytes(),
        );
    }
    t
}

#[test]
fn membership_proofs_verify_for_every_entry() {
    let t = tree_with(64);
    let root = t.root();
    for i in 0..64 {
        let key = format!("account/{i}");
        let want = format!("balance:{i}").into_bytes();
        let proof = t.prove(key.as_bytes());
        assert!(
            proof.verify(root, key.as_bytes(), Some(&want)),
            "membership proof failed for {key}"
        );
    }
}

#[test]
fn non_membership_proofs_verify() {
    let t = tree_with(32);
    let root = t.root();
    for i in 100..140 {
        let key = format!("account/{i}");
        let proof = t.prove(key.as_bytes());
        assert!(
            proof.verify(root, key.as_bytes(), None),
            "absence proof failed for {key}"
        );
    }
}

#[test]
fn a_server_cannot_forge_a_balance() {
    let t = tree_with(16);
    let root = t.root();
    let key = b"account/3";
    let proof = t.prove(key);
    assert!(proof.verify(root, key, Some(b"balance:3")));
    assert!(!proof.verify(root, key, Some(b"balance:999999")));
}

#[test]
fn a_server_cannot_deny_a_funded_account() {
    let t = tree_with(16);
    let root = t.root();
    let key = b"account/7";
    let forged = t.prove(b"account/11");
    assert!(
        !forged.verify(root, key, None),
        "absence of a present key must not verify"
    );
}

#[test]
fn a_proof_for_one_key_does_not_verify_for_another() {
    let t = tree_with(16);
    let root = t.root();
    let proof = t.prove(b"account/3");
    assert!(
        !proof.verify(root, b"account/4", Some(b"balance:3")),
        "leaves must commit to their key"
    );
}

#[test]
fn root_is_independent_of_insertion_order() {
    let mut a = SparseMerkleTree::new();
    let mut b = SparseMerkleTree::new();
    for i in 0..40 {
        a.insert(format!("k{i}").as_bytes(), vec![i as u8]);
    }
    for i in (0..40).rev() {
        b.insert(format!("k{i}").as_bytes(), vec![i as u8]);
    }
    assert_eq!(
        a.root(),
        b.root(),
        "consensus depends on order independence"
    );
}

#[test]
fn mutations_change_the_root() {
    let mut t = tree_with(8);
    let before = t.root();
    t.insert(b"account/3", b"balance:tampered".to_vec());
    assert_ne!(before, t.root());
}

#[test]
fn removal_restores_the_previous_root() {
    let mut t = tree_with(8);
    let before = t.root();
    t.insert(b"account/999", b"x".to_vec());
    assert_ne!(before, t.root());
    assert!(t.remove(b"account/999"));
    assert_eq!(before, t.root(), "state roots must be path-independent");
}

#[test]
fn empty_tree_root_is_the_empty_constant() {
    assert_eq!(SparseMerkleTree::new().root(), Hash32::zero());
}

#[test]
fn single_entry_tree_needs_no_siblings() {
    let mut t = SparseMerkleTree::new();
    t.insert(b"solo", b"v".to_vec());
    let proof = t.prove(b"solo");
    assert!(proof.siblings.is_empty());
    assert!(proof.verify(t.root(), b"solo", Some(b"v")));
}

#[test]
fn proofs_stay_short() {
    let t = tree_with(1_000);
    let proof = t.prove(b"account/500");
    assert!(
        proof.siblings.len() < 40,
        "proof was {} hashes",
        proof.siblings.len()
    );
}
