use afrolink::chain::{Block, BlockHeader, Link, TxReceipt};
use afrolink::chainstore::{
    backend, next_tip, signed_header, stored_block, stored_commit, stored_height, tip_app_hash,
    Replay, StoreError,
};
use afrolink::consensus::{
    Commit, CommitError, SignedVote, Validator, ValidatorSet, ValidatorSetError, Vote, VoteType,
};
use afrolink::crypto::address::Address;
use afrolink::crypto::hash::Hash32;
use afrolink::crypto::keys::SecretKey;
use afrolink::crypto::merkle::MerkleTree;
use afrolink::light::{LightClient, LightError};
use afrolink::primitives::amount::Amount;
use afrolink::primitives::codec::{decode_exact, Encode};
use afrolink::primitives::country::CountryCode;
use afrolink::primitives::denom::Denom;
use afrolink::primitives::ids::{ChainId, Height, Round, Timestamp};
use afrolink::rpc::history::{HistoryCursor, HistoryError};
use afrolink::rpc::query::{
    HistoryEntry, ProvedTransaction, Query, QueryError, Response, SignedHeader, MAX_HISTORY,
};
use afrolink::rpc::server::{answer, ChainView, ReadOnly, Submit, SubmitError};
use afrolink::state::membership::Proof;
use afrolink::state::store::{KeyValueStore, MemoryStore, StoreKey};
use afrolink::types::account::{Account, TxPointer};
use afrolink::types::tx::{Fee, Message, Transaction, TxBody};

fn key(seed: u8) -> SecretKey {
    SecretKey::from_bytes(&[seed; 32])
}

fn addr(seed: u8) -> Address {
    Address::from_public_key(&key(seed).public_key())
}

fn chain() -> ChainId {
    ChainId::new("afrolink-node-test").unwrap()
}

fn validator(seed: u8, power: u64) -> Validator {
    Validator::new(
        key(seed).public_key(),
        power,
        CountryCode::new("ke").unwrap(),
    )
}

fn validators() -> ValidatorSet {
    ValidatorSet::new((1..=4u8).map(|i| validator(i, 1)).collect()).unwrap()
}

fn pay(sender: u8, nonce: u64) -> Transaction {
    TxBody {
        chain_id: chain(),
        sender: addr(sender),
        nonce,
        valid_until: Height(1_000),
        fee: Fee::new(Amount::from_units(10), Denom::native()),
        messages: vec![Message::Transfer {
            to: addr(60),
            denom: Denom::native(),
            amount: Amount::from_afri(1),
            reference: None,
        }],
        memo: String::new(),
    }
    .sign(&key(sender))
}

fn receipt(tx: &Transaction, previous: Option<TxPointer>) -> TxReceipt {
    TxReceipt {
        tx_id: tx.id(),
        links: vec![Link {
            address: tx.body.sender,
            previous,
        }],
    }
}

fn block_of(height: u64, txs: Vec<Transaction>, receipts: &[TxReceipt]) -> Block {
    let ids = txs.iter().map(|t| t.id().as_bytes().to_vec()).collect();
    let outcomes = receipts.iter().map(|r| r.to_bytes()).collect();
    Block {
        header: BlockHeader {
            chain_id: chain(),
            height: Height(height),
            time: Timestamp::from_millis(height * 1_000),
            parent: Hash32::zero(),
            tx_root: MerkleTree::from_items(ids).root(),
            outcome_root: MerkleTree::from_items(outcomes).root(),
            app_hash: Hash32::from_bytes([height as u8; 32]),
            validators: validators().hash(),
        },
        transactions: txs,
    }
}

fn precommit(height: Height, block_id: Hash32, seed: u8) -> SignedVote {
    Vote {
        chain_id: chain(),
        height,
        round: Round::zero(),
        vote_type: VoteType::Precommit,
        block_id: Some(block_id),
        validator: addr(seed),
    }
    .sign(&key(seed))
}

fn commit_of(block: &Block, seeds: &[u8]) -> Commit {
    let id = block.header.id();
    let votes = seeds
        .iter()
        .map(|s| precommit(block.header.height, id, *s))
        .collect();
    Commit::new(block.header.height, Round::zero(), id, votes)
}

/// Three blocks in which account 50 sends three payments, beside others in the same blocks.
struct Node {
    chain_id: ChainId,
    blocks: Vec<Block>,
    receipts: Option<Vec<Vec<TxReceipt>>>,
    state: MemoryStore,
}

fn node() -> Node {
    let mut blocks = Vec::new();
    let mut receipts = Vec::new();
    let mut last = None;
    for h in 1..=3u64 {
        let mine = pay(50, h);
        let txs = vec![pay(51, h), mine.clone(), pay(52, h)];
        let outcomes = vec![
            receipt(&txs[0], None),
            receipt(&mine, last),
            receipt(&txs[2], None),
        ];
        last = Some(TxPointer {
            tx_id: mine.id(),
            height: Height(h),
        });
        blocks.push(block_of(h, txs, &outcomes));
        receipts.push(outcomes);
    }
    Node {
        chain_id: chain(),
        blocks,
        receipts: Some(receipts),
        state: MemoryStore::new(),
    }
}

impl Node {
    fn at(&self, height: Height) -> Option<usize> {
        self.blocks.iter().position(|b| b.header.height == height)
    }

    fn transaction(&self, id: Hash32) -> Box<ProvedTransaction> {
        match answer(self, &Query::Transaction { id }).unwrap() {
            Response::Transaction(t) => t,
            _ => panic!("expected a transaction"),
        }
    }
}

impl ChainView for Node {
    fn chain_id(&self) -> &ChainId {
        &self.chain_id
    }

    fn tip_height(&self) -> Result<Height, QueryError> {
        Ok(Height(self.blocks.len() as u64))
    }

    fn signed_header(&self, height: Height) -> Result<Option<SignedHeader>, QueryError> {
        Ok(self.at(height).map(|i| SignedHeader {
            header: self.blocks[i].header.clone(),
            commit: commit_of(&self.blocks[i], &[1, 2, 3]),
        }))
    }

    fn prove(&self, key: &StoreKey) -> Result<(Height, Option<Vec<u8>>, Proof), QueryError> {
        let (value, proof) = self.state.get_with_proof(key);
        Ok((Height(self.blocks.len() as u64), value, proof))
    }

    fn block(&self, height: Height) -> Result<Option<Block>, QueryError> {
        Ok(self.at(height).map(|i| self.blocks[i].clone()))
    }

    fn receipts(&self, height: Height) -> Result<Option<Vec<TxReceipt>>, QueryError> {
        Ok(match (&self.receipts, self.at(height)) {
            (Some(all), Some(i)) => Some(all[i].clone()),
            _ => None,
        })
    }

    fn locate(&self, id: &Hash32) -> Result<Option<(Height, u32)>, QueryError> {
        for b in &self.blocks {
            if let Some(i) = b.transactions.iter().position(|t| t.id() == *id) {
                return Ok(Some((b.header.height, i as u32)));
            }
        }
        Ok(None)
    }

    fn history(
        &self,
        address: &Address,
        from: Height,
        limit: usize,
    ) -> Result<Option<(Vec<HistoryEntry>, bool)>, QueryError> {
        assert!(limit <= MAX_HISTORY as usize, "asked for {limit} entries");
        let mut entries = Vec::new();
        for b in self.blocks.iter().filter(|b| b.header.height >= from) {
            for (i, t) in b.transactions.iter().enumerate() {
                if t.body.sender == *address {
                    entries.push(HistoryEntry {
                        height: b.header.height,
                        index: i as u32,
                        tx_id: t.id(),
                    });
                }
            }
        }
        let truncated = entries.len() > limit;
        entries.truncate(limit);
        Ok(Some((entries, truncated)))
    }
}

fn account(node: &Node) -> Account {
    let mut a = Account::individual(addr(50));
    let last = node.blocks.len() as u64;
    a.last_txn = Some(TxPointer {
        tx_id: pay(50, last).id(),
        height: Height(last),
    });
    a
}

#[test]
fn a_served_transaction_verifies_against_its_block() {
    let node = node();
    for b in &node.blocks {
        for (i, t) in b.transactions.iter().enumerate() {
            let proved = node.transaction(t.id());
            assert_eq!(proved.height(), b.header.height);
            assert_eq!(proved.index_unverified(), i as u32);
            let effects = proved.verify(&b.header).unwrap();
            assert_eq!(effects.transaction, t);
            assert_eq!(effects.receipt.tx_id, t.id());
        }
    }
}

#[test]
fn a_transaction_proof_is_good_for_no_other_block() {
    let node = node();
    let proved = node.transaction(pay(50, 1).id());
    assert_eq!(
        proved.verify(&node.blocks[1].header).err(),
        Some(LightError::HeaderMismatch)
    );
    let mut forged = node.blocks[0].header.clone();
    forged.tx_root = Hash32::from_bytes([1; 32]);
    assert_eq!(proved.verify(&forged).err(), Some(LightError::BadProof));
    let mut forged = node.blocks[0].header.clone();
    forged.outcome_root = Hash32::from_bytes([1; 32]);
    assert_eq!(proved.verify(&forged).err(), Some(LightError::BadProof));
}

#[test]
fn a_transaction_that_is_nowhere_is_an_error() {
    let id = Hash32::from_bytes([0xAB; 32]);
    assert_eq!(
        answer(&node(), &Query::Transaction { id }),
        Err(QueryError::NoSuchTransaction(id.to_hex()))
    );
}

#[test]
fn a_node_without_receipts_says_so() {
    let mut bare = node();
    bare.receipts = None;
    assert_eq!(
        answer(&bare, &Query::Transaction { id: pay(50, 1).id() }),
        Err(QueryError::NotIndexed("execution receipts"))
    );
}

#[test]
fn a_node_whose_receipts_do_not_fit_its_block_says_so() {
    let mut broken = node();
    broken.receipts.as_mut().unwrap()[0].pop();
    assert_eq!(
        answer(&broken, &Query::Transaction { id: pay(50, 1).id() }),
        Err(QueryError::Backend(
            "block 1 has 3 transactions and 2 receipts".to_string()
        ))
    );
}

#[test]
fn a_history_answer_is_capped_and_names_its_account() {
    let node = node();
    let query = |limit| Query::History {
        address: addr(50),
        from: Height(2),
        limit,
    };
    match answer(&node, &query(u32::MAX)).unwrap() {
        Response::History(h) => {
            assert_eq!(h.address(), &addr(50));
            assert!(!h.truncated());
            let ids: Vec<Hash32> = h.entries_unverified().iter().map(|e| e.tx_id).collect();
            assert_eq!(ids, vec![pay(50, 2).id(), pay(50, 3).id()]);
        }
        _ => panic!("expected a history"),
    }
    match answer(&node, &query(1)).unwrap() {
        Response::History(h) => {
            assert!(h.truncated());
            assert_eq!(h.entries_unverified().len(), 1);
        }
        _ => panic!("expected a history"),
    }
}

#[test]
fn a_walk_from_the_account_reaches_the_first_transaction() {
    let node = node();
    let mut cursor = HistoryCursor::new(addr(50), &account(&node));
    for h in (1..=3u64).rev() {
        assert!(!cursor.complete());
        let pointer = cursor.next_pointer().unwrap();
        assert_eq!(pointer.height, Height(h));
        let proved = node.transaction(pointer.tx_id);
        let tx = cursor
            .step(&proved, &node.blocks[h as usize - 1].header)
            .unwrap();
        assert_eq!(tx, &pay(50, h));
    }
    assert!(cursor.complete());
    assert_eq!(cursor.seen(), 3);
    let proved = node.transaction(pay(50, 1).id());
    assert_eq!(
        cursor.step(&proved, &node.blocks[0].header).err(),
        Some(HistoryError::Finished)
    );
}

#[test]
fn a_walk_cannot_be_diverted() {
    let node = node();
    let mut cursor = HistoryCursor::new(addr(50), &account(&node));
    let skipped = node.transaction(pay(50, 2).id());
    let right = node.transaction(pay(50, 3).id());
    let beside = node.transaction(pay(51, 3).id());
    assert_eq!(
        cursor.step(&skipped, &node.blocks[1].header).err(),
        Some(HistoryError::WrongHeight {
            expected: 3,
            got: 2
        })
    );
    assert_eq!(
        cursor.step(&beside, &node.blocks[2].header).err(),
        Some(HistoryError::WrongTransaction {
            expected: pay(50, 3).id().to_hex(),
            got: pay(51, 3).id().to_hex(),
        })
    );
    assert_eq!(
        cursor.step(&skipped, &node.blocks[2].header).err(),
        Some(HistoryError::Verification(LightError::HeaderMismatch))
    );
    let mut other = account(&node);
    other.address = addr(77);
    let mut stranger = HistoryCursor::new(addr(77), &other);
    assert_eq!(
        stranger.step(&right, &node.blocks[2].header).err(),
        Some(HistoryError::BrokenChain)
    );
    assert_eq!(cursor.seen(), 0);
    assert!(cursor.step(&right, &node.blocks[2].header).is_ok());
}

#[test]
fn two_complete_walks_show_one_history() {
    let node = node();
    let walk = |detour: bool| {
        let mut cursor = HistoryCursor::new(addr(50), &account(&node));
        let mut ids = Vec::new();
        while let Some(pointer) = cursor.next_pointer() {
            let header = &node.blocks[pointer.height.0 as usize - 1].header;
            if detour {
                let beside = node.transaction(pay(52, pointer.height.0).id());
                assert!(cursor.step(&beside, header).is_err());
            }
            let proved = node.transaction(pointer.tx_id);
            ids.push(cursor.step(&proved, header).unwrap().id());
        }
        (ids, cursor.seen())
    };
    assert_eq!(walk(false), walk(true));
    assert_eq!(walk(false).0.len(), 3);
}

#[test]
fn an_empty_walk_is_complete() {
    let cursor = HistoryCursor::empty(addr(1));
    assert!(cursor.complete());
    assert_eq!(cursor.next_pointer(), None);
    assert_eq!(cursor.seen(), 0);
}

#[test]
fn a_receipt_knows_which_accounts_it_links() {
    let tx = pay(50, 1);
    let pointer = TxPointer {
        tx_id: Hash32::from_bytes([4; 32]),
        height: Height(2),
    };
    let r = receipt(&tx, Some(pointer));
    assert_eq!(r.previous_for(&addr(50)), Ok(Some(pointer)));
    assert_eq!(r.previous_for(&addr(51)), Err(()));
    assert_eq!(receipt(&tx, None).previous_for(&addr(50)), Ok(None));
}

#[test]
fn a_read_only_node_refuses_every_submission() {
    assert_eq!(
        ReadOnly.submit(pay(50, 1)),
        Err(SubmitError::NotAccepting)
    );
}

#[test]
fn each_fault_of_a_validator_set_is_named() {
    assert_eq!(
        ValidatorSet::new(Vec::new()).err(),
        Some(ValidatorSetError::Empty)
    );
    assert_eq!(
        ValidatorSet::new(vec![validator(1, 0)]).err(),
        Some(ValidatorSetError::ZeroPower)
    );
    assert_eq!(
        ValidatorSet::new(vec![validator(1, 1), validator(2, 1), validator(1, 2)]).err(),
        Some(ValidatorSetError::Repeated)
    );
    assert_eq!(
        ValidatorSet::new(vec![validator(1, u64::MAX), validator(2, 1)]).err(),
        Some(ValidatorSetError::TooMuchPower)
    );
    let set = validators();
    assert_eq!(set.total_power(), 4);
    assert_eq!(set.get(&addr(3)), Some(&validator(3, 1)));
    assert_eq!(set.get(&addr(9)), None);
    let fewer = ValidatorSet::new(vec![validator(1, 1)]).unwrap();
    assert_ne!(fewer.hash(), set.hash());
}

#[test]
fn each_fault_of_a_commit_is_named() {
    let block = &node().blocks[0];
    let set = validators();
    assert_eq!(commit_of(block, &[1, 2, 3]).verify(&chain(), &set), Ok(()));
    assert!(matches!(
        commit_of(block, &[1, 2]).verify(&chain(), &set),
        Err(CommitError::NoQuorum { .. })
    ));
    assert_eq!(
        commit_of(block, &[1, 2, 2]).verify(&chain(), &set),
        Err(CommitError::RepeatedVote)
    );
    assert_eq!(
        commit_of(block, &[1, 2, 9]).verify(&chain(), &set),
        Err(CommitError::UnknownValidator)
    );
    let mut forged = commit_of(block, &[1, 2, 3]);
    forged.signatures[1].signature = forged.signatures[0].signature;
    assert_eq!(
        forged.verify(&chain(), &set),
        Err(CommitError::BadSignature)
    );
    let mut astray = commit_of(block, &[1, 2, 3]);
    astray.signatures[2] = precommit(Height(9), block.header.id(), 3);
    assert_eq!(astray.verify(&chain(), &set), Err(CommitError::WrongVote));
    let other = ChainId::new("another-chain").unwrap();
    assert_eq!(
        commit_of(block, &[1, 2, 3]).verify(&other, &set),
        Err(CommitError::WrongVote)
    );
}

#[test]
fn a_light_client_takes_only_the_header_it_was_told_of() {
    let node = node();
    let header = node.blocks[0].header.clone();
    assert!(
        LightClient::from_block_id(chain(), header.id(), header.clone(), validators()).is_ok()
    );
    let mut forged = header.clone();
    forged.app_hash = Hash32::from_bytes([0xEE; 32]);
    assert_eq!(
        LightClient::from_block_id(chain(), header.id(), forged, validators()).err(),
        Some(LightError::WrongBlock)
    );
}

#[test]
fn a_value_proof_is_checked_against_the_clients_state_root() {
    let mut state = MemoryStore::new();
    let k = StoreKey::account(&addr(1));
    state.set(&k, b"here".to_vec());
    let (value, proof) = state.get_with_proof(&k);
    let mut header = node().blocks[0].header.clone();
    header.app_hash = state.root();
    let client = LightClient::new(chain(), validators(), header);
    assert_eq!(client.verify_value(&k, value.as_deref(), &proof), Ok(()));
    assert_eq!(
        client.verify_value(&k, Some(b"there"), &proof),
        Err(LightError::BadProof)
    );
    assert_eq!(
        client.verify_value(&k, None, &proof),
        Err(LightError::BadProof)
    );
}

#[test]
fn the_stored_tip_moves_forward_only() {
    assert_eq!(stored_height(None), Ok(Height(0)));
    assert_eq!(next_tip(None, Height(3)), Some(Height(3).to_bytes()));
    let three = Height(3).to_bytes();
    assert_eq!(stored_height(Some(&three)), Ok(Height(3)));
    assert_eq!(next_tip(Some(&three), Height(2)), None);
    assert_eq!(
        next_tip(Some(&three), Height(3)),
        Some(Height(3).to_bytes())
    );
    assert_eq!(
        next_tip(Some(&three), Height(4)),
        Some(Height(4).to_bytes())
    );
    assert!(matches!(
        stored_height(Some(&[1, 2])),
        Err(StoreError::Corrupt { .. })
    ));
    assert_eq!(
        next_tip(Some(&[1, 2]), Height(1)),
        Some(Height(1).to_bytes())
    );
}

#[test]
fn stored_records_read_back_or_are_reported_corrupt() {
    let block = node().blocks[0].clone();
    let bytes = block.to_bytes();
    assert_eq!(
        stored_block(Height(1), Some(&bytes)),
        Ok(Some(block.clone()))
    );
    assert_eq!(stored_block(Height(1), None), Ok(None));
    match stored_block(Height(7), Some(&[0])) {
        Err(StoreError::Corrupt { what, .. }) => assert_eq!(what, "block 7"),
        other => panic!("{other:?}"),
    }
    let commit = commit_of(&block, &[1, 2, 3]);
    let bytes = commit.to_bytes();
    assert_eq!(
        stored_commit(Height(1), Some(&bytes)),
        Ok(Some(commit.clone()))
    );
    match stored_commit(Height(7), Some(&[0])) {
        Err(StoreError::Corrupt { what, .. }) => assert_eq!(what, "commit 7"),
        other => panic!("{other:?}"),
    }
    assert_eq!(tip_app_hash(Height(0), Some(block.clone())), None);
    assert_eq!(tip_app_hash(Height(1), None), None);
    assert_eq!(
        tip_app_hash(Height(1), Some(block.clone())),
        Some(block.header.app_hash)
    );
    assert_eq!(
        signed_header(Height(1), Some(block.clone()), None),
        Err(QueryError::NoCommit(1))
    );
    assert_eq!(signed_header(Height(1), None, None), Ok(None));
    assert_eq!(
        signed_header(Height(1), Some(block.clone()), Some(commit.clone())),
        Ok(Some(SignedHeader {
            header: block.header,
            commit
        }))
    );
}

#[test]
fn a_replay_accepts_each_block_whose_state_agrees() {
    let node = node();
    let genesis = block_of(0, Vec::new(), &[]);
    let mut replay = Replay::new(genesis.clone(), Height(3));
    for h in 1..=3u64 {
        assert_eq!(replay.wanted(), Some(Height(h)));
        let b = node.blocks[h as usize - 1].clone();
        let computed = b.header.app_hash;
        let found = Replay::found(Height(h), Some(b)).unwrap();
        assert_eq!(replay.accept(found, computed), Ok(()));
    }
    assert_eq!(replay.wanted(), None);
    assert_eq!(replay.into_tip(), node.blocks[2]);
    assert_eq!(Replay::new(genesis.clone(), Height(0)).into_tip(), genesis);
}

#[test]
fn a_replay_stops_at_a_missing_block_and_at_a_divergence() {
    let node = node();
    assert_eq!(
        Replay::found(Height(2), None).err(),
        Some(StoreError::MissingBlock(2))
    );
    let mut replay = Replay::new(block_of(0, Vec::new(), &[]), Height(3));
    let computed = Hash32::from_bytes([0xDD; 32]);
    let b = node.blocks[0].clone();
    let expected = b.header.app_hash;
    let e = replay.accept(b, computed).unwrap_err();
    assert_eq!(
        e,
        StoreError::StateDivergence {
            height: 1,
            computed: computed.to_hex(),
            expected: expected.to_hex(),
        }
    );
    assert_eq!(backend(&e), QueryError::Backend(e.to_string()));
    assert_eq!(replay.wanted(), Some(Height(1)));
}

#[test]
fn queries_of_every_kind_read_back() {
    let queries = vec![
        Query::Status,
        Query::Header { height: Height(4) },
        Query::Account { address: addr(1) },
        Query::Supply {
            denom: Denom::native(),
        },
        Query::Issuer {
            denom: Denom::native(),
        },
        Query::Frozen {
            denom: Denom::native(),
            address: addr(2),
        },
        Query::PrimaryAlias { address: addr(3) },
        Query::Block { height: Height(5) },
        Query::Transaction {
            id: Hash32::from_bytes([5; 32]),
        },
        Query::History {
            address: addr(4),
            from: Height(1),
            limit: 10,
        },
    ];
    for q in queries {
        assert_eq!(decode_exact::<Query>(&q.to_bytes()), Ok(q.clone()));
        let answered = answer(&node(), &q);
        if let Ok(r) = answered {
            assert_eq!(decode_exact::<Response>(&r.to_bytes()), Ok(r.clone()));
        }
    }
}
