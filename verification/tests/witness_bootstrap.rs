use afrolink::bank::Bank;
use afrolink::chain::{Block, BlockHeader};
use afrolink::consensus::{Commit, Validator, ValidatorSet, Vote, VoteType};
use afrolink::crypto::address::Address;
use afrolink::crypto::hash::Hash32;
use afrolink::crypto::keys::SecretKey;
use afrolink::light::{LightClient, LightError};
use afrolink::primitives::amount::Amount;
use afrolink::primitives::codec::{decode_exact, Encode};
use afrolink::primitives::country::CountryCode;
use afrolink::primitives::denom::Denom;
use afrolink::primitives::ids::{ChainId, Height, Round, Timestamp};
use afrolink::state::store::{KeyValueStore, MemoryStore, StoreKey};
use afrolink::witness::audit::{Observation, Remembered, Witness, WitnessSet};
use afrolink::witness::error::WitnessError;
use afrolink::witness::head::LogId;
use afrolink::witness::log::{LogEntry, WitnessLog};
use afrolink::witness::policy::{corroborate, Checkpoint, Policy};

const GENESIS_MS: u64 = 1_700_000_000_000;

fn key(seed: u8) -> SecretKey {
    SecretKey::from_bytes(&[seed; 32])
}

fn addr(seed: u8) -> Address {
    Address::from_public_key(&key(seed).public_key())
}

fn chain() -> ChainId {
    ChainId::new("afrolink-1").expect("valid")
}

fn kes() -> Denom {
    Denom::sovereign("ke", "kes").expect("valid")
}

fn validators() -> ValidatorSet {
    ValidatorSet::new(
        (1..=4u8)
            .map(|i| {
                Validator::new(
                    key(i).public_key(),
                    1,
                    CountryCode::new("ke").expect("valid"),
                )
            })
            .collect(),
    )
    .expect("valid set")
}

/// A short chain crediting `funded` to one account, and every block's commit.
fn run_chain(blocks: u64, funded: u64) -> (MemoryStore, Vec<(Block, Option<Commit>)>) {
    let mut store = MemoryStore::new();
    Bank::new(&mut store)
        .genesis_allocate(&addr(50), &kes(), Amount::from_afri(funded))
        .expect("allocates");
    let block_at = |height: Height, parent: Hash32| Block {
        header: BlockHeader {
            chain_id: chain(),
            height,
            time: Timestamp::from_millis(GENESIS_MS + height.0 * 1_000),
            parent,
            tx_root: Hash32::zero(),
            outcome_root: Hash32::zero(),
            app_hash: store.root(),
            validators: validators().hash(),
        },
        transactions: Vec::new(),
    };
    let first = block_at(Height::genesis(), Hash32::zero());
    let mut chain_blocks = vec![(first.clone(), None)];
    let mut parent = first;
    for _ in 0..blocks {
        let height = parent.header.height.next();
        let block = block_at(height, parent.header.id());
        let block_id = block.header.id();
        let signatures = [1u8, 2, 3, 4]
            .iter()
            .map(|s| {
                Vote {
                    chain_id: chain(),
                    height,
                    round: Round::zero(),
                    vote_type: VoteType::Precommit,
                    block_id: Some(block_id),
                    validator: addr(*s),
                }
                .sign(&key(*s))
            })
            .collect();
        let commit = Commit::new(height, Round::zero(), block_id, signatures);
        parent = block.clone();
        chain_blocks.push((block, Some(commit)));
    }
    (store, chain_blocks)
}

/// What a client makes of a balance it was told.
fn verified_balance(client: &LightClient, store: &MemoryStore) -> Amount {
    let store_key = StoreKey::balance(&addr(50), &kes());
    let (value, proof) = store.get_with_proof(&store_key);
    client
        .verify_value(&store_key, value.as_deref(), &proof)
        .expect("proof verifies against the trusted state");
    decode_exact::<Amount>(&value.expect("funded")).expect("decodes")
}

fn witness_set() -> WitnessSet {
    WitnessSet::new(vec![
        Witness::new(key(200).public_key(), *b"ke", "Safaricom"),
        Witness::new(key(201).public_key(), *b"ng", "Lagos Bank"),
        Witness::new(key(202).public_key(), *b"za", "SARB"),
    ])
    .expect("valid")
}

/// Build a witness's log over `blocks`, then have it prove the entry at
/// `target_height`. `tamper` rewrites what the witness claims it saw.
fn observe(
    set: &WitnessSet,
    seed: u8,
    blocks: &[(Block, Option<Commit>)],
    target_height: Height,
    tamper: Option<Hash32>,
) -> Observation {
    let mut log = WitnessLog::new(chain(), LogId::from_public_key(&key(seed).public_key()));
    let mut index = 0u64;
    for (i, (block, _)) in blocks.iter().enumerate().skip(1) {
        let block_id = if block.header.height == target_height {
            index = (i - 1) as u64;
            tamper.unwrap_or_else(|| block.header.id())
        } else {
            block.header.id()
        };
        log.append(LogEntry {
            height: block.header.height,
            block_id,
            observed_at: Timestamp::from_millis(GENESIS_MS + block.header.height.0 * 1_000),
        })
        .expect("monotonic");
    }
    let sth = log
        .sign_head(&key(seed), Timestamp::from_millis(GENESIS_MS + 100_000))
        .expect("own key");
    let proof = log.prove_inclusion(index).expect("in range");
    set.observe(
        &chain(),
        &sth,
        index,
        log.entry(index).expect("in range"),
        &proof,
    )
    .expect("the witness proved its own record")
}

#[test]
fn a_phone_goes_from_a_scanned_checkpoint_to_a_verified_balance() {
    let (store, blocks) = run_chain(8, 1_000);
    let target = Height(8);
    let set = witness_set();

    let observations = vec![
        observe(&set, 200, &blocks, target, None),
        observe(&set, 201, &blocks, target, None),
        observe(&set, 202, &blocks, target, None),
    ];
    let checkpoint =
        corroborate(&chain(), &observations, Policy::baseline()).expect("witnesses agree");

    let scanned = checkpoint.to_bytes();
    assert!(scanned.len() < 128, "checkpoint is {} bytes", scanned.len());
    let Checkpoint {
        height, block_id, ..
    } = decode_exact::<Checkpoint>(&scanned).expect("round trips");
    assert_eq!(height, target);

    let (block, _) = blocks
        .iter()
        .find(|(b, _)| b.header.height == height)
        .expect("height exists");
    let client = LightClient::from_block_id(
        chain(),
        block_id,
        block.header.clone(),
        validators(),
    )
    .expect("the header matches the corroborated block");

    let balance = verified_balance(&client, &store);
    assert_eq!(balance, Amount::from_afri(1_000));
}

#[test]
fn a_forged_history_with_perfect_signatures_never_reaches_the_wallet() {
    let (_, real) = run_chain(8, 1_000);
    let (forged_store, forged) = run_chain(8, 1_000_000);
    let set = witness_set();

    let (forged_block, forged_commit) = &forged[8];
    let commit = forged_commit.as_ref().expect("built with a commit");
    assert!(
        commit.verify(&chain(), &validators()).is_ok(),
        "the forged commit must reach a full quorum"
    );
    let forged_client = LightClient::new(chain(), validators(), forged_block.header.clone());
    assert_eq!(
        verified_balance(&forged_client, &forged_store),
        Amount::from_afri(1_000_000),
        "believing the forged checkpoint would show a fabricated balance"
    );

    let observations = vec![
        observe(&set, 200, &real, Height(8), None),
        observe(&set, 201, &real, Height(8), None),
    ];
    let checkpoint = corroborate(&chain(), &observations, Policy::baseline()).expect("agreed");

    assert_ne!(
        checkpoint.block_id,
        forged_block.header.id(),
        "witnesses recorded a different block at this height"
    );
    assert_eq!(
        LightClient::from_block_id(
            chain(),
            checkpoint.block_id,
            forged_block.header.clone(),
            validators(),
        )
        .err(),
        Some(LightError::WrongBlock),
        "a signature-perfect forgery is still not the block anyone witnessed"
    );
}

#[test]
fn one_dishonest_witness_stops_the_wallet_rather_than_misleading_it() {
    let (_, blocks) = run_chain(8, 1_000);
    let set = witness_set();

    let observations = vec![
        observe(&set, 200, &blocks, Height(8), None),
        observe(&set, 201, &blocks, Height(8), None),
        observe(
            &set,
            202,
            &blocks,
            Height(8),
            Some(Hash32::from_bytes([0xEE; 32])),
        ),
    ];

    assert_eq!(
        corroborate(&chain(), &observations, Policy::baseline()),
        Err(WitnessError::SplitView { height: 8 })
    );
}

#[test]
fn a_wallet_returning_months_later_detects_a_witness_that_rewrote_history() {
    let (_, blocks) = run_chain(30, 1_000);
    let set = witness_set();

    let mut honest = WitnessLog::new(chain(), LogId::from_public_key(&key(200).public_key()));
    for (block, _) in blocks.iter().skip(1).take(10) {
        honest
            .append(LogEntry {
                height: block.header.height,
                block_id: block.header.id(),
                observed_at: Timestamp::from_millis(GENESIS_MS + block.header.height.0 * 1_000),
            })
            .expect("monotonic");
    }
    let remembered = Remembered::from_head(
        &honest
            .sign_head(&key(200), Timestamp::from_millis(GENESIS_MS + 10_000))
            .expect("own key"),
    );

    let mut rewritten = WitnessLog::new(chain(), LogId::from_public_key(&key(200).public_key()));
    for (block, _) in blocks.iter().skip(1) {
        let block_id = if block.header.height == Height(4) {
            Hash32::from_bytes([0xEE; 32])
        } else {
            block.header.id()
        };
        rewritten
            .append(LogEntry {
                height: block.header.height,
                block_id,
                observed_at: Timestamp::from_millis(GENESIS_MS + block.header.height.0 * 1_000),
            })
            .expect("monotonic");
    }
    let sth = rewritten
        .sign_head(&key(200), Timestamp::from_millis(GENESIS_MS + 900_000))
        .expect("own key");
    let proof = rewritten
        .prove_consistency(remembered.size)
        .expect("in range");

    assert_eq!(
        set.check_continuity(&remembered, &sth, &proof),
        Err(WitnessError::BadConsistencyProof),
        "forty remembered bytes catch a rewrite months later"
    );

    let mut grown = WitnessLog::new(chain(), LogId::from_public_key(&key(200).public_key()));
    for (block, _) in blocks.iter().skip(1) {
        grown
            .append(LogEntry {
                height: block.header.height,
                block_id: block.header.id(),
                observed_at: Timestamp::from_millis(GENESIS_MS + block.header.height.0 * 1_000),
            })
            .expect("monotonic");
    }
    let good_sth = grown
        .sign_head(&key(200), Timestamp::from_millis(GENESIS_MS + 900_000))
        .expect("own key");
    let good_proof = grown.prove_consistency(remembered.size).expect("in range");
    assert!(
        set.check_continuity(&remembered, &good_sth, &good_proof)
            .is_ok()
    );
}
