use afrolink::crypto::hash::Hash32;
use afrolink::crypto::keys::SecretKey;
use afrolink::primitives::ids::{ChainId, Height, Timestamp};
use afrolink::witness::audit::{Remembered, Witness, WitnessSet};
use afrolink::witness::error::WitnessError;
use afrolink::witness::head::LogId;
use afrolink::witness::log::{LogEntry, WitnessLog};

fn key(seed: u8) -> SecretKey {
    SecretKey::from_bytes(&[seed; 32])
}

fn chain() -> ChainId {
    ChainId::new("afrolink-1").expect("valid")
}

fn witness(seed: u8, country: &[u8; 2]) -> Witness {
    Witness::new(key(seed).public_key(), *country, &format!("witness-{seed}"))
}

fn entry(h: u64) -> LogEntry {
    LogEntry {
        height: Height(h),
        block_id: Hash32::from_bytes([u8::try_from(h % 251).unwrap_or(0); 32]),
        observed_at: Timestamp::from_millis(1_700_000_000_000 + h * 1_000),
    }
}

fn log(seed: u8, n: u64) -> WitnessLog {
    let mut l = WitnessLog::new(chain(), LogId::from_public_key(&key(seed).public_key()));
    for h in 1..=n {
        l.append(entry(h)).expect("monotonic");
    }
    l
}

fn at() -> Timestamp {
    Timestamp::from_millis(1_700_000_500_000)
}

#[test]
fn a_wallet_accepts_a_proved_observation() {
    let set = WitnessSet::new(vec![witness(1, b"ke")]).expect("valid");
    let l = log(1, 10);
    let sth = l.sign_head(&key(1), at()).expect("own key");
    let proof = l.prove_inclusion(4).expect("in range");

    let obs = set
        .observe(&chain(), &sth, 4, l.entry(4).expect("in range"), &proof)
        .expect("proved");
    assert_eq!(obs.height(), Height(5));
    assert_eq!(obs.country(), *b"ke");
}

#[test]
fn a_witness_the_wallet_does_not_know_is_ignored() {
    let set = WitnessSet::new(vec![witness(1, b"ke")]).expect("valid");
    let l = log(9, 10);
    let sth = l.sign_head(&key(9), at()).expect("own key");
    let proof = l.prove_inclusion(0).expect("in range");
    assert_eq!(
        set.observe(&chain(), &sth, 0, l.entry(0).expect("in range"), &proof),
        Err(WitnessError::UnknownWitness)
    );
}

#[test]
fn a_witness_for_another_network_is_refused() {
    let set = WitnessSet::new(vec![witness(1, b"ke")]).expect("valid");
    let other = ChainId::new("afrolink-testnet").expect("valid");
    let mut l = WitnessLog::new(other, LogId::from_public_key(&key(1).public_key()));
    l.append(entry(1)).expect("monotonic");
    let sth = l.sign_head(&key(1), at()).expect("own key");
    let proof = l.prove_inclusion(0).expect("in range");

    assert!(matches!(
        set.observe(&chain(), &sth, 0, l.entry(0).expect("in range"), &proof),
        Err(WitnessError::WrongChain { .. })
    ));
}

#[test]
fn an_entry_the_witness_never_committed_cannot_be_proved() {
    let set = WitnessSet::new(vec![witness(1, b"ke")]).expect("valid");
    let l = log(1, 10);
    let sth = l.sign_head(&key(1), at()).expect("own key");
    let proof = l.prove_inclusion(4).expect("in range");

    let mut invented = l.entry(4).expect("in range").clone();
    invented.block_id = Hash32::from_bytes([0xAB; 32]);
    assert_eq!(
        set.observe(&chain(), &sth, 4, &invented, &proof),
        Err(WitnessError::BadInclusionProof)
    );
}

#[test]
fn a_proof_against_a_different_tree_size_is_refused() {
    let set = WitnessSet::new(vec![witness(1, b"ke")]).expect("valid");
    let big = log(1, 20);
    let small = log(1, 10);
    let sth = big.sign_head(&key(1), at()).expect("own key");
    let proof = small.prove_inclusion(4).expect("in range");

    assert!(matches!(
        set.observe(&chain(), &sth, 4, small.entry(4).expect("in range"), &proof),
        Err(WitnessError::SizeMismatch { .. })
    ));
}

#[test]
fn a_wallet_returning_after_a_long_absence_checks_continuity() {
    let set = WitnessSet::new(vec![witness(1, b"ke")]).expect("valid");
    let early = log(1, 12);
    let remembered = Remembered::from_head(&early.sign_head(&key(1), at()).expect("own key"));

    let later = log(1, 5_000);
    let sth = later.sign_head(&key(1), at()).expect("own key");
    let proof = later.prove_consistency(12).expect("in range");

    assert!(set.check_continuity(&remembered, &sth, &proof).is_ok());
}

#[test]
fn a_witness_that_rewrote_history_fails_continuity() {
    let set = WitnessSet::new(vec![witness(1, b"ke")]).expect("valid");
    let early = log(1, 12);
    let remembered = Remembered::from_head(&early.sign_head(&key(1), at()).expect("own key"));

    let mut forged = WitnessLog::new(chain(), LogId::from_public_key(&key(1).public_key()));
    for h in 1..=5_000u64 {
        let mut e = entry(h);
        if h == 6 {
            e.block_id = Hash32::from_bytes([0xEE; 32]);
        }
        forged.append(e).expect("monotonic");
    }
    let sth = forged.sign_head(&key(1), at()).expect("own key");
    let proof = forged.prove_consistency(12).expect("in range");

    assert_eq!(
        set.check_continuity(&remembered, &sth, &proof),
        Err(WitnessError::BadConsistencyProof)
    );
}

#[test]
fn a_witness_cannot_shrink_its_log() {
    let set = WitnessSet::new(vec![witness(1, b"ke")]).expect("valid");
    let remembered =
        Remembered::from_head(&log(1, 50).sign_head(&key(1), at()).expect("own key"));
    let shrunk = log(1, 20);
    let sth = shrunk.sign_head(&key(1), at()).expect("own key");
    let proof = shrunk.prove_consistency(20).expect("in range");

    assert!(matches!(
        set.check_continuity(&remembered, &sth, &proof),
        Err(WitnessError::SizeMismatch { .. })
    ));
}

#[test]
fn one_operator_cannot_be_listed_twice() {
    let dup = WitnessSet::new(vec![witness(1, b"ke"), witness(1, b"ng")]);
    assert_eq!(dup.err(), Some(WitnessError::DuplicateWitness));
}

#[test]
fn a_witness_set_reports_its_jurisdictional_spread() {
    let set = WitnessSet::new(vec![
        witness(1, b"ke"),
        witness(2, b"ke"),
        witness(3, b"ng"),
    ])
    .expect("valid");
    assert_eq!(set.len(), 3);
    assert_eq!(set.countries(), 2, "three witnesses, two jurisdictions");
}
