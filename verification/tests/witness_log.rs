use afrolink::crypto::hash::Hash32;
use afrolink::crypto::keys::SecretKey;
use afrolink::primitives::codec::{decode_exact, Encode};
use afrolink::primitives::ids::{ChainId, Height, Timestamp};
use afrolink::witness::error::WitnessError;
use afrolink::witness::head::LogId;
use afrolink::witness::log::{LogEntry, WitnessLog};

fn key(seed: u8) -> SecretKey {
    SecretKey::from_bytes(&[seed; 32])
}

fn chain() -> ChainId {
    ChainId::new("afrolink-1").expect("valid")
}

fn entry(h: u64) -> LogEntry {
    LogEntry {
        height: Height(h),
        block_id: Hash32::from_bytes([u8::try_from(h % 251).unwrap_or(0); 32]),
        observed_at: Timestamp::from_millis(1_700_000_000_000 + h * 1_000),
    }
}

fn log_with(n: u64) -> WitnessLog {
    let mut log = WitnessLog::new(chain(), LogId::from_public_key(&key(1).public_key()));
    for h in 1..=n {
        log.append(entry(h)).expect("monotonic");
    }
    log
}

#[test]
fn a_log_records_what_it_saw_and_proves_it_later() {
    let log = log_with(20);
    let proof = log.prove_inclusion(7).expect("in range");
    let e = log.entry(7).expect("in range");
    assert!(proof.verify(log.root(), e.leaf(), 7, 20).is_ok());
}

#[test]
fn a_log_cannot_revisit_a_height() {
    let mut log = log_with(5);
    assert!(matches!(
        log.append(entry(5)),
        Err(WitnessError::NonMonotonic { .. })
    ));
    assert!(matches!(
        log.append(entry(3)),
        Err(WitnessError::NonMonotonic { .. })
    ));
}

#[test]
fn a_log_cannot_stall_or_rewind_its_clock() {
    let mut log = log_with(5);
    let mut stalled = entry(6);
    stalled.observed_at = log.latest().expect("non-empty").observed_at;
    assert!(matches!(
        log.append(stalled),
        Err(WitnessError::NonMonotonic { .. })
    ));
}

#[test]
fn a_wallet_that_remembers_one_head_can_check_everything_since() {
    let early = log_with(9);
    let remembered_root = early.root();

    let later = log_with(400);
    let proof = later.prove_consistency(9).expect("in range");
    assert!(proof
        .verify(remembered_root, later.root(), 9, 400)
        .is_ok());
}

#[test]
fn a_witness_that_rewrote_history_cannot_satisfy_that_wallet() {
    let honest = log_with(50);
    let remembered_root = log_with(9).root();

    let mut forged = WitnessLog::new(chain(), LogId::from_public_key(&key(1).public_key()));
    for h in 1..=50u64 {
        let mut e = entry(h);
        if h == 5 {
            e.block_id = Hash32::from_bytes([0xEE; 32]);
        }
        forged.append(e).expect("monotonic");
    }

    let proof = forged.prove_consistency(9).expect("in range");
    assert!(
        proof
            .verify(remembered_root, forged.root(), 9, 50)
            .is_err(),
        "a rewritten log must fail against a root the wallet already holds"
    );
    assert!(
        honest
            .prove_consistency(9)
            .expect("in range")
            .verify(remembered_root, honest.root(), 9, 50)
            .is_ok()
    );
}

#[test]
fn a_witness_cannot_sign_its_log_with_the_wrong_key() {
    let log = log_with(3);
    assert_eq!(
        log.sign_head(&key(2), Timestamp::from_millis(1)).err(),
        Some(WitnessError::LogMismatch)
    );
    assert!(log.sign_head(&key(1), Timestamp::from_millis(1)).is_ok());
}

#[test]
fn a_signed_head_describes_the_log_it_came_from() {
    let log = log_with(12);
    let sth = log
        .sign_head(&key(1), Timestamp::from_millis(1_700_000_100_000))
        .expect("right key");
    assert_eq!(sth.head.size, 12);
    assert_eq!(sth.head.root, log.root());
    assert!(sth.verify(&key(1).public_key()).is_ok());
}

#[test]
fn an_entry_round_trips() {
    let e = entry(3);
    assert_eq!(decode_exact::<LogEntry>(&e.to_bytes()), Ok(e));
}
