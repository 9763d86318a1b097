use afrolink::crypto::hash::Hash32;
use afrolink::crypto::keys::SecretKey;
use afrolink::primitives::codec::{decode_exact, Encode};
use afrolink::primitives::ids::{ChainId, Timestamp};
use afrolink::witness::error::WitnessError;
use afrolink::witness::head::{Equivocation, LogId, SignedTreeHead, TreeHead};

fn key(seed: u8) -> SecretKey {
    SecretKey::from_bytes(&[seed; 32])
}

fn chain() -> ChainId {
    ChainId::new("afrolink-1").expect("valid")
}

fn head(seed: u8, size: u64, root: u8) -> TreeHead {
    TreeHead {
        log: LogId::from_public_key(&key(seed).public_key()),
        chain_id: chain(),
        size,
        root: Hash32::from_bytes([root; 32]),
        signed_at: Timestamp::from_millis(1_700_000_000_000),
    }
}

#[test]
fn a_head_verifies_under_the_key_that_names_the_log() {
    let sth = head(1, 10, 7).sign(&key(1));
    assert!(sth.verify(&key(1).public_key()).is_ok());
}

#[test]
fn a_witness_cannot_sign_under_another_witnesss_identifier() {
    let mut forged = head(1, 10, 7);
    forged.size = 11;
    let sth = forged.sign(&key(2));
    assert_eq!(
        sth.verify(&key(2).public_key()),
        Err(WitnessError::LogMismatch)
    );
}

#[test]
fn a_tampered_head_does_not_verify() {
    let mut sth = head(1, 10, 7).sign(&key(1));
    sth.head.root = Hash32::from_bytes([8u8; 32]);
    assert_eq!(
        sth.verify(&key(1).public_key()),
        Err(WitnessError::BadSignature)
    );
}

#[test]
fn two_roots_at_one_size_is_provable_equivocation() {
    let evidence = Equivocation {
        a: head(1, 10, 7).sign(&key(1)),
        b: head(1, 10, 8).sign(&key(1)),
    };
    assert!(evidence.check(&key(1).public_key()).is_ok());
}

#[test]
fn an_honest_pair_of_heads_is_not_equivocation() {
    let grown = Equivocation {
        a: head(1, 10, 7).sign(&key(1)),
        b: head(1, 20, 8).sign(&key(1)),
    };
    assert_eq!(
        grown.check(&key(1).public_key()),
        Err(WitnessError::NotEquivocation)
    );

    let repeated = Equivocation {
        a: head(1, 10, 7).sign(&key(1)),
        b: head(1, 10, 7).sign(&key(1)),
    };
    assert_eq!(
        repeated.check(&key(1).public_key()),
        Err(WitnessError::NotEquivocation)
    );
}

#[test]
fn equivocation_by_one_witness_cannot_be_pinned_on_another() {
    let evidence = Equivocation {
        a: head(1, 10, 7).sign(&key(1)),
        b: head(2, 10, 8).sign(&key(2)),
    };
    assert!(evidence.check(&key(1).public_key()).is_err());
    assert!(evidence.check(&key(2).public_key()).is_err());
}

#[test]
fn a_signed_head_round_trips() {
    let sth = head(1, 10, 7).sign(&key(1));
    assert_eq!(decode_exact::<SignedTreeHead>(&sth.to_bytes()), Ok(sth));
}
