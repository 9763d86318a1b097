use afrolink::crypto::address::Address;
use afrolink::crypto::keys::SecretKey;
use afrolink::primitives::amount::Amount;
use afrolink::primitives::codec::Encode;
use afrolink::primitives::denom::Denom;
use afrolink::state::store::{KeyValueStore, MemoryStore, Namespace, StateError, StoreKey};

fn addr(seed: u8) -> Address {
    Address::from_public_key(&SecretKey::from_bytes(&[seed; 32]).public_key())
}

#[test]
fn namespaces_keep_modules_apart() {
    let a = StoreKey::new(Namespace::Balance, &[b"x"]);
    let b = StoreKey::new(Namespace::Supply, &[b"x"]);
    assert_ne!(a, b);
}

#[test]
fn key_parts_are_length_prefixed() {
    let a = StoreKey::new(Namespace::Balance, &[b"ab", b"c"]);
    let b = StoreKey::new(Namespace::Balance, &[b"a", b"bc"]);
    assert_ne!(a, b);
}

#[test]
fn typed_round_trip_through_the_store() {
    let mut store = MemoryStore::new();
    let key = StoreKey::balance(&addr(1), &Denom::native());
    store.set_encoded(&key, &Amount::from_afri(250));
    assert_eq!(
        store.get_decoded::<Amount>(&key).expect("decodes"),
        Some(Amount::from_afri(250))
    );
}

#[test]
fn corrupt_bytes_are_reported_not_panicked_on() {
    let mut store = MemoryStore::new();
    let key = StoreKey::balance(&addr(1), &Denom::native());
    store.set(&key, vec![0x01, 0x02]); // too short for a u128
    assert!(matches!(
        store.get_decoded::<Amount>(&key),
        Err(StateError::Corrupt { .. })
    ));
}

#[test]
fn a_light_client_can_verify_a_balance_it_was_told() {
    let mut store = MemoryStore::new();
    let alice = addr(1);
    let key = StoreKey::balance(&alice, &Denom::native());
    store.set_encoded(&key, &Amount::from_afri(1_000));

    let root = store.root();

    let (value, proof) = store.get_with_proof(&key);
    let value = value.expect("balance present");
    assert!(proof.verify(root, key.as_bytes(), Some(&value)));

    let lie = Amount::from_afri(1_000_000).to_bytes();
    assert!(!proof.verify(root, key.as_bytes(), Some(&lie)));
}

#[test]
fn absence_of_an_unfunded_account_is_provable() {
    let mut store = MemoryStore::new();
    store.set_encoded(
        &StoreKey::balance(&addr(1), &Denom::native()),
        &Amount::from_afri(5),
    );
    let root = store.root();

    let missing = StoreKey::balance(&addr(2), &Denom::native());
    let (value, proof) = store.get_with_proof(&missing);
    assert!(value.is_none());
    assert!(proof.verify(root, missing.as_bytes(), None));
}

#[test]
fn deleting_a_key_changes_the_root() {
    let mut store = MemoryStore::new();
    let key = StoreKey::balance(&addr(1), &Denom::native());
    let empty = store.root();
    store.set_encoded(&key, &Amount::from_afri(1));
    assert_ne!(empty, store.root());
    assert!(store.delete(&key));
    assert_eq!(empty, store.root());
}
