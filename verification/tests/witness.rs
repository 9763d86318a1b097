use afrolink::crypto::hash::Hash32;
use afrolink::crypto::keys::SecretKey;
use afrolink::primitives::ids::{ChainId, Height, Timestamp};
use afrolink::witness::audit::{Witness, WitnessSet};
use afrolink::witness::error::WitnessError;
use afrolink::witness::head::LogId;
use afrolink::witness::log::{LogEntry, WitnessLog};
use afrolink::witness::policy::{Policy, MAX_CORROBORATION};

fn key(seed: u8) -> SecretKey {
    SecretKey::from_bytes(&[seed; 32])
}

fn log(entries: u64) -> WitnessLog {
    let id = LogId::from_public_key(&key(1).public_key());
    let mut l = WitnessLog::new(ChainId::new("afrolink-witness").unwrap(), id);
    for h in 1..=entries {
        l.append(LogEntry {
            height: Height(h * 10),
            block_id: Hash32::from_bytes([h as u8; 32]),
            observed_at: Timestamp::from_millis(h * 100),
        })
        .unwrap();
    }
    l
}

#[test]
fn every_entry_of_a_log_can_be_shown() {
    let l = log(11);
    for i in 0..11u64 {
        let p = l.prove_inclusion(i).unwrap();
        let leaf = l.entry(i).unwrap().leaf();
        assert_eq!(p.verify(l.root(), leaf, i as usize, 11), Ok(()));
    }
    assert_eq!(
        l.prove_inclusion(11).err(),
        Some(WitnessError::IndexOutOfRange)
    );
    assert_eq!(l.entry(11), None);
    assert_eq!(l.latest(), l.entry(10));
}

#[test]
fn the_growth_of_a_log_can_always_be_shown() {
    let l = log(11);
    for m in 0..=11u64 {
        let p = l.prove_consistency(m).unwrap();
        assert_eq!(
            p.verify(log(m).root(), l.root(), m as usize, 11),
            Ok(()),
            "{m}"
        );
    }
    assert!(l.prove_consistency(12).is_err());
}

#[test]
fn the_bar_rises_with_age_and_stops_rising() {
    let period = 1_000u64;
    let mut last = Policy::for_age(0, period);
    assert_eq!(last, Policy::baseline());
    for age in (0..20_000).step_by(250) {
        let p = Policy::for_age(age, period);
        assert!(p.min_witnesses >= last.min_witnesses);
        assert!(p.min_countries >= last.min_countries);
        assert!(p.min_witnesses <= MAX_CORROBORATION);
        last = p;
    }
    assert_eq!(last.min_witnesses, MAX_CORROBORATION);
}

#[test]
fn a_set_of_witnesses_is_not_empty() {
    assert_eq!(
        WitnessSet::new(Vec::new()).err(),
        Some(WitnessError::EmptyWitnessSet)
    );
    let w = Witness::new(key(1).public_key(), *b"ke", "Nairobi");
    let set = WitnessSet::new(vec![w.clone()]).unwrap();
    assert_eq!(set.len(), 1);
    assert!(!set.is_empty());
    assert_eq!(set.get(&w.log), Some(&w));
}
