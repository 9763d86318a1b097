use afrolink::bank::Bank;
use afrolink::chain::{Block, BlockHeader};
use afrolink::chainstore::{
    next_tip, stored_block, stored_commit, stored_genesis, stored_height, tip_app_hash, Replay,
    StoreError,
};
use afrolink::consensus::{Commit, Validator, ValidatorSet, Vote, VoteType};
use afrolink::crypto::address::Address;
use afrolink::crypto::hash::Hash32;
use afrolink::crypto::keys::SecretKey;
use afrolink::primitives::amount::Amount;
use afrolink::primitives::codec::{decode_exact, Encode};
use afrolink::primitives::country::CountryCode;
use afrolink::primitives::denom::Denom;
use afrolink::primitives::ids::{ChainId, Height, Round, Timestamp};
use afrolink::state::store::{KeyValueStore, MemoryStore};
use std::collections::BTreeMap;

/// What a node's database holds, without the database.
#[derive(Default)]
struct Shelf {
    genesis: Option<Vec<u8>>,
    tip: Option<Vec<u8>>,
    blocks: BTreeMap<u64, Vec<u8>>,
    commits: BTreeMap<u64, Vec<u8>>,
}

impl Shelf {
    fn put_block(&mut self, block: &Block, commit: &Commit) {
        let height = block.header.height;
        self.blocks.insert(height.0, block.to_bytes());
        self.commits.insert(height.0, commit.to_bytes());
        if let Some(tip) = next_tip(self.tip.as_deref(), height) {
            self.tip = Some(tip);
        }
    }

    fn height(&self) -> Result<Height, StoreError> {
        stored_height(self.tip.as_deref())
    }

    fn block(&self, height: Height) -> Result<Option<Block>, StoreError> {
        stored_block(height, self.blocks.get(&height.0).map(Vec::as_slice))
    }

    fn commit(&self, height: Height) -> Result<Option<Commit>, StoreError> {
        stored_commit(height, self.commits.get(&height.0).map(Vec::as_slice))
    }

    fn tip_app_hash(&self) -> Result<Option<Hash32>, StoreError> {
        let height = self.height()?;
        Ok(tip_app_hash(height, self.block(height)?))
    }

    /// Blocks here carry no transactions, so executing one leaves the state as it is.
    fn replay(&self) -> Result<(MemoryStore, Block), StoreError> {
        let genesis = stored_genesis(self.genesis.clone())?;
        let first = decode_exact::<Block>(&genesis).expect("decodes");
        let state = funded();
        let mut replay = Replay::new(first, self.height()?);
        while let Some(height) = replay.wanted() {
            let block = Replay::found(height, self.block(height)?)?;
            replay.accept(block, state.root())?;
        }
        Ok((state, replay.into_tip()))
    }
}

fn key(seed: u8) -> SecretKey {
    SecretKey::from_bytes(&[seed; 32])
}

fn addr(seed: u8) -> Address {
    Address::from_public_key(&key(seed).public_key())
}

fn chain() -> ChainId {
    ChainId::new("afrolink-1").expect("valid")
}

fn kes() -> Denom {
    Denom::sovereign("ke", "kes").expect("valid")
}

fn validators() -> ValidatorSet {
    ValidatorSet::new(
        (1..=4u8)
            .map(|i| {
                Validator::new(
                    key(i).public_key(),
                    1,
                    CountryCode::new("ke").expect("valid"),
                )
            })
            .collect(),
    )
    .expect("valid set")
}

fn funded() -> MemoryStore {
    let mut state = MemoryStore::new();
    Bank::new(&mut state)
        .genesis_allocate(&addr(50), &kes(), Amount::from_afri(1_000))
        .expect("allocates");
    state
}

fn block_on(state: &MemoryStore, height: Height, parent: Hash32) -> Block {
    Block {
        header: BlockHeader {
            chain_id: chain(),
            height,
            time: Timestamp::from_millis(1_700_000_001_000),
            parent,
            tx_root: Hash32::zero(),
            outcome_root: Hash32::zero(),
            app_hash: state.root(),
            validators: validators().hash(),
        },
        transactions: Vec::new(),
    }
}

fn genesis_block(state: &MemoryStore) -> Block {
    block_on(state, Height::genesis(), Hash32::zero())
}

/// Build the next empty block over `state`, plus a quorum commit.
fn next_block(state: &MemoryStore, parent: &Block) -> (Block, Commit) {
    let height = parent.header.height.next();
    let block = block_on(state, height, parent.header.id());
    let block_id = block.header.id();
    let signatures = (1..=3u8)
        .map(|s| {
            Vote {
                chain_id: chain(),
                height,
                round: Round::zero(),
                vote_type: VoteType::Precommit,
                block_id: Some(block_id),
                validator: addr(s),
            }
            .sign(&key(s))
        })
        .collect();
    (
        block,
        Commit::new(height, Round::zero(), block_id, signatures),
    )
}

/// Store genesis plus `n` blocks, returning the shelf and the live state.
fn seeded(n: u64) -> (Shelf, MemoryStore) {
    let state = funded();
    let mut parent = genesis_block(&state);
    let mut store = Shelf {
        genesis: Some(parent.to_bytes()),
        ..Shelf::default()
    };
    for _ in 0..n {
        let (block, commit) = next_block(&state, &parent);
        store.put_block(&block, &commit);
        parent = block;
    }
    (store, state)
}

#[test]
fn blocks_and_commits_survive_a_reopen() {
    let (store, _) = seeded(3);

    assert_eq!(store.height().expect("reads"), Height(3));
    for h in 1..=3 {
        assert!(
            store.block(Height(h)).expect("reads").is_some(),
            "block {h} survived"
        );
        assert!(
            store.commit(Height(h)).expect("reads").is_some(),
            "commit {h} survived"
        );
    }
    assert!(stored_genesis(store.genesis).is_ok());
}

#[test]
fn replay_reproduces_the_live_state_exactly() {
    let (store, live) = seeded(5);

    let (replayed, tip) = store.replay().expect("replays");
    assert_eq!(
        replayed.root(),
        live.root(),
        "replayed state must match live state"
    );
    assert_eq!(tip.header.height, Height(5));
    assert_eq!(tip.header.app_hash, live.root());
}

#[test]
fn replay_of_an_empty_chain_yields_genesis_state() {
    let (store, live) = seeded(0);

    let (replayed, tip) = store.replay().expect("replays");
    assert_eq!(replayed.root(), live.root());
    assert_eq!(tip.header.height, Height::genesis());
}

#[test]
fn a_tampered_block_is_caught_rather_than_silently_applied() {
    let (mut store, state) = seeded(0);
    let parent = genesis_block(&state);
    let (mut block, commit) = next_block(&state, &parent);

    block.header.app_hash = Hash32::zero();
    store.put_block(&block, &commit);

    assert!(matches!(
        store.replay(),
        Err(StoreError::StateDivergence { height: 1, .. })
    ));
}

#[test]
fn a_gap_in_the_chain_is_detected() {
    let (mut store, state) = seeded(0);
    let parent = genesis_block(&state);
    let (block, commit) = next_block(&state, &parent);

    let mut orphan = block;
    orphan.header.height = Height(4);
    store.put_block(&orphan, &commit);

    assert!(matches!(
        store.replay(),
        Err(StoreError::MissingBlock(1))
    ));
}

#[test]
fn replay_without_genesis_is_refused() {
    let store = Shelf::default();
    assert!(matches!(store.replay(), Err(StoreError::NoGenesis)));
}

#[test]
fn a_stored_commit_still_verifies_after_a_round_trip() {
    let (store, _) = seeded(2);

    let commit = store.commit(Height(2)).expect("reads").expect("exists");
    assert_eq!(commit.verify(&chain(), &validators()), Ok(()));

    let block = store.block(Height(2)).expect("reads").expect("exists");
    assert_eq!(commit.block_id, block.header.id());
}

#[test]
fn missing_heights_read_as_absent_rather_than_erroring() {
    let (store, _) = seeded(1);
    assert!(store.block(Height(99)).expect("reads").is_none());
    assert!(store.commit(Height(99)).expect("reads").is_none());
}

#[test]
fn height_tracks_the_tip_and_does_not_go_backwards() {
    let (mut store, _) = seeded(2);
    assert_eq!(store.height().expect("reads"), Height(2));

    let block = store.block(Height(1)).expect("reads").expect("exists");
    let commit = store.commit(Height(1)).expect("reads").expect("exists");
    store.put_block(&block, &commit);
    assert_eq!(
        store.height().expect("reads"),
        Height(2),
        "tip must not rewind"
    );
}

#[test]
fn tip_app_hash_matches_the_stored_header() {
    let (store, live) = seeded(3);
    assert_eq!(store.tip_app_hash().expect("reads"), Some(live.root()));
}
