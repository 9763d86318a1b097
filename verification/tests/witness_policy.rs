use afrolink::crypto::hash::Hash32;
use afrolink::crypto::keys::SecretKey;
use afrolink::primitives::codec::{decode_exact, Encode};
use afrolink::primitives::ids::{ChainId, Height, Timestamp};
use afrolink::witness::audit::{Observation, Witness, WitnessSet};
use afrolink::witness::error::WitnessError;
use afrolink::witness::head::LogId;
use afrolink::witness::log::{LogEntry, WitnessLog};
use afrolink::witness::policy::{corroborate, Checkpoint, Policy, MAX_CORROBORATION};

const TRUSTING: u64 = 14 * 24 * 60 * 60 * 1_000;

fn key(seed: u8) -> SecretKey {
    SecretKey::from_bytes(&[seed; 32])
}

fn chain() -> ChainId {
    ChainId::new("afrolink-1").expect("valid")
}

fn block(h: u64) -> Hash32 {
    Hash32::from_bytes([u8::try_from(h % 251).unwrap_or(0); 32])
}

/// One witness observing heights 1..=n, honestly unless `lie_at` says
/// otherwise.
fn observation(
    set: &WitnessSet,
    seed: u8,
    heights: &[u64],
    want: u64,
    lie: Option<Hash32>,
) -> Observation {
    let mut log = WitnessLog::new(chain(), LogId::from_public_key(&key(seed).public_key()));
    let mut index = 0u64;
    for (i, h) in heights.iter().enumerate() {
        let block_id = if *h == want {
            lie.unwrap_or(block(*h))
        } else {
            block(*h)
        };
        log.append(LogEntry {
            height: Height(*h),
            block_id,
            observed_at: Timestamp::from_millis(1_700_000_000_000 + h * 1_000),
        })
        .expect("monotonic");
        if *h == want {
            index = u64::try_from(i).unwrap_or(0);
        }
    }
    let sth = log
        .sign_head(&key(seed), Timestamp::from_millis(1_700_001_000_000))
        .expect("own key");
    let proof = log.prove_inclusion(index).expect("in range");
    set.observe(
        &chain(),
        &sth,
        index,
        log.entry(index).expect("in range"),
        &proof,
    )
    .expect("proved")
}

fn witnesses() -> WitnessSet {
    WitnessSet::new(vec![
        Witness::new(key(1).public_key(), *b"ke", "one"),
        Witness::new(key(2).public_key(), *b"ng", "two"),
        Witness::new(key(3).public_key(), *b"za", "three"),
        Witness::new(key(4).public_key(), *b"gh", "four"),
    ])
    .expect("valid")
}

#[test]
fn two_independent_witnesses_produce_a_checkpoint() {
    let set = witnesses();
    let obs = vec![
        observation(&set, 1, &[10, 20, 30], 30, None),
        observation(&set, 2, &[10, 20, 30], 30, None),
    ];
    let cp = corroborate(&chain(), &obs, Policy::baseline()).expect("corroborated");
    assert_eq!(cp.height, Height(30));
    assert_eq!(cp.block_id, block(30));
}

#[test]
fn one_witness_alone_is_never_enough() {
    let set = witnesses();
    let obs = vec![observation(&set, 1, &[10, 20], 20, None)];
    assert!(matches!(
        corroborate(&chain(), &obs, Policy::baseline()),
        Err(WitnessError::NotCorroborated { .. })
    ));
}

#[test]
fn agreement_inside_one_jurisdiction_does_not_count_as_independence() {
    let set = WitnessSet::new(vec![
        Witness::new(key(1).public_key(), *b"ke", "one"),
        Witness::new(key(2).public_key(), *b"ke", "two"),
    ])
    .expect("valid");
    let obs = vec![
        observation(&set, 1, &[10], 10, None),
        observation(&set, 2, &[10], 10, None),
    ];
    assert!(matches!(
        corroborate(&chain(), &obs, Policy::baseline()),
        Err(WitnessError::NotCorroborated { countries: 1, .. })
    ));
}

#[test]
fn a_single_disagreement_disqualifies_the_whole_set() {
    let set = witnesses();
    let obs = vec![
        observation(&set, 1, &[30], 30, None),
        observation(&set, 2, &[30], 30, None),
        observation(&set, 3, &[30], 30, None),
        observation(&set, 4, &[30], 30, Some(Hash32::from_bytes([0xEE; 32]))),
    ];
    assert_eq!(
        corroborate(&chain(), &obs, Policy::baseline()),
        Err(WitnessError::SplitView { height: 30 })
    );
}

#[test]
fn the_highest_corroborated_height_wins() {
    let set = witnesses();
    let obs = vec![
        observation(&set, 1, &[10, 20, 30], 20, None),
        observation(&set, 2, &[10, 20, 30], 20, None),
        observation(&set, 3, &[10, 20, 30], 30, None),
    ];
    let cp = corroborate(&chain(), &obs, Policy::baseline()).expect("corroborated");
    assert_eq!(
        cp.height,
        Height(20),
        "height 30 has only one witness behind it"
    );
}

#[test]
fn staleness_raises_the_bar_and_never_lowers_it() {
    let fresh = Policy::for_age(0, TRUSTING);
    assert_eq!(fresh, Policy::baseline());

    let one_period = Policy::for_age(TRUSTING, TRUSTING);
    assert_eq!(one_period.min_witnesses, 3);
    assert_eq!(one_period.min_countries, 3);

    let very_stale = Policy::for_age(TRUSTING * 400, TRUSTING);
    assert_eq!(
        very_stale.min_witnesses, MAX_CORROBORATION,
        "the demand is capped, because an unsatisfiable policy strands users"
    );

    let mut previous = 0;
    for periods in 0..10u64 {
        let p = Policy::for_age(TRUSTING * periods, TRUSTING);
        assert!(p.min_witnesses >= previous);
        previous = p.min_witnesses;
    }
}

#[test]
fn a_stale_wallet_needs_more_agreement_than_a_fresh_one() {
    let set = witnesses();
    let obs = vec![
        observation(&set, 1, &[30], 30, None),
        observation(&set, 2, &[30], 30, None),
    ];
    assert!(corroborate(&chain(), &obs, Policy::baseline()).is_ok());

    let stale = Policy::for_age(TRUSTING * 2, TRUSTING);
    assert!(matches!(
        corroborate(&chain(), &obs, stale),
        Err(WitnessError::NotCorroborated { .. })
    ));
}

#[test]
fn a_wallet_can_tell_in_advance_that_its_witness_set_is_too_narrow() {
    let set = WitnessSet::new(vec![
        Witness::new(key(1).public_key(), *b"ke", "one"),
        Witness::new(key(2).public_key(), *b"ke", "two"),
    ])
    .expect("valid");
    assert!(!Policy::baseline().satisfiable_by(set.len(), set.countries()));
}

#[test]
fn a_checkpoint_round_trips_for_a_qr_code() {
    let cp = Checkpoint {
        chain_id: chain(),
        height: Height(1_234_567),
        block_id: block(7),
    };
    let bytes = cp.to_bytes();
    assert!(
        bytes.len() < 128,
        "must stay small enough to scan: {} bytes",
        bytes.len()
    );
    assert_eq!(decode_exact::<Checkpoint>(&bytes), Ok(cp));
}
