use afrolink::crypto::address::Address;
use afrolink::crypto::hash::{hash, hash_parts, Domain, Hash32};
use afrolink::crypto::keys::{CryptoError, PublicKey, SecretKey};
use afrolink::crypto::merkle::{leaf_hash, MerkleError, MerkleTree};

fn key(seed: u8) -> SecretKey {
    SecretKey::from_bytes(&[seed; 32])
}

fn items(n: usize) -> Vec<Vec<u8>> {
    (0..n).map(|i| format!("item {i}").into_bytes()).collect()
}

fn tree(n: usize) -> MerkleTree {
    MerkleTree::from_items(items(n))
}

#[test]
fn a_digest_is_not_what_was_hashed() {
    let bytes = [7u8; 32];
    let h = hash(Domain::TxId, &bytes);
    assert_ne!(h.as_bytes(), &bytes);
    assert_eq!(h, hash(Domain::TxId, &bytes));
}

#[test]
fn every_domain_hashes_differently() {
    let domains = [
        Domain::Address,
        Domain::ModuleAddress,
        Domain::StateLeaf,
        Domain::StateNode,
        Domain::TxId,
        Domain::TxSignDoc,
        Domain::VoteSignDoc,
        Domain::ValidatorSet,
        Domain::BlockHeader,
        Domain::MerkleLeaf,
        Domain::MerkleNode,
        Domain::WitnessLogId,
        Domain::WitnessEntry,
        Domain::TreeHeadSignDoc,
    ];
    for (i, a) in domains.iter().enumerate() {
        for b in domains.iter().skip(i + 1) {
            assert_ne!(hash(*a, b"same"), hash(*b, b"same"), "{a:?} and {b:?}");
        }
    }
}

#[test]
fn hashing_parts_hashes_their_concatenation() {
    assert_eq!(
        hash_parts(Domain::StateNode, b"ab", b"c"),
        hash(Domain::StateNode, b"abc")
    );
}

#[test]
fn hex_has_two_digits_for_each_byte() {
    let mut bytes = [0u8; 32];
    bytes[0] = 0xA5;
    bytes[31] = 0x0F;
    let hex = Hash32::from_bytes(bytes).to_hex();
    assert_eq!(hex.len(), 64);
    assert!(hex.starts_with("a500"));
    assert!(hex.ends_with("000f"));
}

#[test]
fn bits_are_numbered_from_the_most_significant() {
    let mut bytes = [0u8; 32];
    bytes[0] = 0b1000_0001;
    bytes[1] = 0b0100_0000;
    let h = Hash32::from_bytes(bytes);
    assert!(h.bit(0));
    assert!(!h.bit(1));
    assert!(h.bit(7));
    assert!(h.bit(9));
    assert!(!h.bit(255));
}

#[test]
fn a_signature_is_good_for_its_key_domain_and_document_only() {
    let signature = key(1).sign(Domain::TxSignDoc, b"pay");
    let public = key(1).public_key();
    assert_eq!(public.verify(Domain::TxSignDoc, b"pay", &signature), Ok(()));
    assert_eq!(
        public.verify(Domain::VoteSignDoc, b"pay", &signature),
        Err(CryptoError::BadSignature)
    );
    assert_eq!(
        public.verify(Domain::TxSignDoc, b"pay more", &signature),
        Err(CryptoError::BadSignature)
    );
    assert_eq!(
        key(2)
            .public_key()
            .verify(Domain::TxSignDoc, b"pay", &signature),
        Err(CryptoError::BadSignature)
    );
}

#[test]
fn a_public_key_is_not_its_seed_and_not_every_string_is_one() {
    let public = key(3).public_key();
    assert_ne!(public.as_bytes(), &[3u8; 32]);
    assert_eq!(PublicKey::from_bytes(*public.as_bytes()), Some(public));
    let mut refused = 0;
    for b in 0..=255u8 {
        let mut bytes = [0u8; 32];
        bytes[0] = b;
        bytes[31] = 0x55;
        if PublicKey::from_bytes(bytes).is_none() {
            refused += 1;
        }
    }
    assert!(refused > 0, "about half of all strings are no curve point");
}

#[test]
fn an_address_reads_back_from_its_text() {
    let a = Address::from_public_key(&key(1).public_key());
    let text = a.to_bech32().unwrap();
    assert!(text.starts_with("afri1"));
    assert_eq!(a.to_string(), text);
    assert_eq!(Address::from_bech32(&text), Ok(a));
    assert_eq!(Address::from_bech32(&text.to_uppercase()), Ok(a));
}

#[test]
fn text_that_is_no_address_is_refused() {
    let a = Address::from_public_key(&key(1).public_key());
    let text = a.to_bech32().unwrap();
    let mut typo = text.clone();
    let last = typo.pop().unwrap();
    typo.push(if last == 'q' { 'p' } else { 'q' });
    for bad in ["", "afri", "afri1", "hello", typo.as_str()] {
        assert_eq!(
            Address::from_bech32(bad),
            Err(CryptoError::MalformedAddress),
            "{bad}"
        );
    }
    assert_eq!(
        Address::from_parts("btc", a.as_bytes()),
        Err(CryptoError::MalformedAddress)
    );
    assert_eq!(
        Address::from_parts("afri", &[0u8; 19]),
        Err(CryptoError::MalformedAddress)
    );
    assert_eq!(Address::from_parts("afri", a.as_bytes()), Ok(a));
}

#[test]
fn addresses_of_keys_and_of_modules_are_apart() {
    let bytes = *key(1).public_key().as_bytes();
    assert_ne!(
        Address::derived(Domain::Address, &bytes),
        Address::derived(Domain::ModuleAddress, &bytes)
    );
    assert_eq!(
        Address::derived(Domain::Address, &bytes),
        Address::from_public_key(&key(1).public_key())
    );
}

#[test]
fn every_leaf_of_a_tree_can_be_proved_at_its_place() {
    for n in 1..=17usize {
        let t = tree(n);
        for i in 0..n {
            let p = t.prove(i).unwrap();
            let leaf = leaf_hash(format!("item {i}").as_bytes());
            assert_eq!(p.verify(t.root(), leaf, i, n), Ok(()), "{i} of {n}");
            assert_eq!(
                p.verify(t.root(), leaf_hash(b"another"), i, n),
                Err(MerkleError::BadProof)
            );
            assert_eq!(
                p.verify(t.root(), leaf, i, n + 1),
                Err(MerkleError::WrongPlace)
            );
        }
        assert_eq!(t.prove(n).err(), Some(MerkleError::OutOfRange));
    }
}

#[test]
fn every_prefix_of_a_tree_is_consistent_with_it() {
    for n in 1..=17usize {
        let whole = tree(n);
        for m in 0..=n {
            let p = whole.prove_consistency(m).unwrap();
            assert_eq!(
                p.verify(tree(m).root(), whole.root(), m, n),
                Ok(()),
                "{m} of {n}"
            );
        }
        assert_eq!(
            whole.prove_consistency(n + 1).err(),
            Some(MerkleError::OutOfRange)
        );
    }
}

#[test]
fn a_tree_that_rewrote_a_leaf_is_not_consistent() {
    let mut forged = items(12);
    forged[3] = b"forged".to_vec();
    let forged = MerkleTree::from_items(forged);
    let p = forged.prove_consistency(7).unwrap();
    assert_eq!(
        p.verify(tree(7).root(), forged.root(), 7, 12),
        Err(MerkleError::BadProof)
    );
    assert_eq!(
        p.verify(tree(7).root(), forged.root(), 8, 12),
        Err(MerkleError::WrongPlace)
    );
}

#[test]
fn repeating_the_last_leaf_changes_the_root() {
    for n in 1..=9usize {
        let mut longer = items(n);
        longer.push(format!("item {}", n - 1).into_bytes());
        assert_ne!(MerkleTree::from_items(longer).root(), tree(n).root());
    }
}

#[test]
fn a_root_of_one_leaf_is_the_leaf_and_of_none_is_zero() {
    assert_eq!(tree(1).root(), leaf_hash(b"item 0"));
    assert_eq!(tree(0).root(), Hash32::zero());
    assert_eq!(
        MerkleTree::from_leaf_hashes(vec![leaf_hash(b"item 0"), leaf_hash(b"item 1")]).root(),
        tree(2).root()
    );
}
