use afrolink::bank::Bank;
use afrolink::chain::{Block, BlockHeader, TxReceipt};
use afrolink::consensus::{Commit, Validator, ValidatorSet, Vote, VoteType};
use afrolink::crypto::address::Address;
use afrolink::crypto::hash::Hash32;
use afrolink::crypto::keys::SecretKey;
use afrolink::light::{LightClient, LightError};
use afrolink::primitives::amount::Amount;
use afrolink::primitives::codec::{decode_exact, Encode};
use afrolink::primitives::country::CountryCode;
use afrolink::primitives::denom::Denom;
use afrolink::primitives::ids::{ChainId, Height, Round, Timestamp};
use afrolink::rpc::query::{
    HistoryEntry, ProvedValue, Query, QueryError, Response, SignedHeader,
};
use afrolink::rpc::server::{answer, ChainView};
use afrolink::state::membership::Proof;
use afrolink::state::store::{KeyValueStore, MemoryStore, StoreKey};

fn key(seed: u8) -> SecretKey {
    SecretKey::from_bytes(&[seed; 32])
}

fn addr(seed: u8) -> Address {
    Address::from_public_key(&key(seed).public_key())
}

fn chain() -> ChainId {
    ChainId::new("afrolink-rpc-test").unwrap()
}

fn kes() -> Denom {
    Denom::sovereign("ke", "kes").unwrap()
}

/// Four validators, so a quorum is a real threshold rather than a formality.
fn validators() -> ValidatorSet {
    ValidatorSet::new(
        (1..=4u8)
            .map(|i| Validator::new(key(i).public_key(), 1, CountryCode::new("ke").unwrap()))
            .collect(),
    )
    .unwrap()
}

/// A node serving a first block, with one funded account.
struct TestNode {
    chain_id: ChainId,
    state: MemoryStore,
    block: Block,
    commit: Commit,
}

impl TestNode {
    fn new() -> Self {
        let mut state = MemoryStore::new();
        Bank::new(&mut state)
            .genesis_allocate(&addr(50), &kes(), Amount::from_afri(1_000))
            .unwrap();
        let block = Block {
            header: BlockHeader {
                chain_id: chain(),
                height: Height::genesis(),
                time: Timestamp::from_millis(1_700_000_000_000),
                parent: Hash32::zero(),
                tx_root: Hash32::zero(),
                outcome_root: Hash32::zero(),
                app_hash: state.root(),
                validators: validators().hash(),
            },
            transactions: Vec::new(),
        };
        let commit = sign_commit(&block, &[1, 2, 3, 4]);
        Self {
            chain_id: chain(),
            state,
            block,
            commit,
        }
    }
}

/// An answer put together from bytes, as a server that lies would.
fn answer_of(value: Option<Vec<u8>>, proof: &Proof) -> ProvedValue {
    let mut bytes = vec![2u8];
    Height::genesis().encode(&mut bytes);
    value.encode(&mut bytes);
    proof.encode(&mut bytes);
    match decode_exact::<Response>(&bytes).unwrap() {
        Response::Value(v) => v,
        _ => panic!("expected a value"),
    }
}

fn sign_commit(block: &Block, seeds: &[u8]) -> Commit {
    let block_id = block.header.id();
    let signatures = seeds
        .iter()
        .map(|s| {
            Vote {
                chain_id: chain(),
                height: block.header.height,
                round: Round::zero(),
                vote_type: VoteType::Precommit,
                block_id: Some(block_id),
                validator: addr(*s),
            }
            .sign(&key(*s))
        })
        .collect();
    Commit::new(block.header.height, Round::zero(), block_id, signatures)
}

impl ChainView for TestNode {
    fn chain_id(&self) -> &ChainId {
        &self.chain_id
    }

    fn tip_height(&self) -> Result<Height, QueryError> {
        Ok(self.block.header.height)
    }

    fn signed_header(&self, height: Height) -> Result<Option<SignedHeader>, QueryError> {
        if height != self.block.header.height {
            return Ok(None);
        }
        Ok(Some(SignedHeader {
            header: self.block.header.clone(),
            commit: self.commit.clone(),
        }))
    }

    fn prove(&self, key: &StoreKey) -> Result<(Height, Option<Vec<u8>>, Proof), QueryError> {
        let (value, proof) = self.state.get_with_proof(key);
        Ok((self.block.header.height, value, proof))
    }

    fn block(&self, height: Height) -> Result<Option<Block>, QueryError> {
        if height != self.block.header.height {
            return Ok(None);
        }
        Ok(Some(self.block.clone()))
    }

    fn receipts(&self, _height: Height) -> Result<Option<Vec<TxReceipt>>, QueryError> {
        Ok(None)
    }

    fn locate(&self, id: &Hash32) -> Result<Option<(Height, u32)>, QueryError> {
        Ok(self
            .block
            .transactions
            .iter()
            .position(|t| t.id() == *id)
            .and_then(|i| u32::try_from(i).ok())
            .map(|i| (self.block.header.height, i)))
    }

    fn history(
        &self,
        _address: &Address,
        _from: Height,
        _limit: usize,
    ) -> Result<Option<(Vec<HistoryEntry>, bool)>, QueryError> {
        Ok(None)
    }
}

fn client(node: &TestNode) -> LightClient {
    LightClient::new(chain(), validators(), node.block.header.clone())
}

#[test]
fn a_balance_answer_verifies_against_a_header_the_client_trusts() {
    let node = TestNode::new();
    let client = client(&node);
    let query = Query::Balance {
        address: addr(50),
        denom: kes(),
    };

    let response = answer(&node, &query).unwrap();
    let proved = response.as_value().unwrap();

    let key = query.store_key().unwrap();
    let balance = proved.verify_amount(&client, &key).unwrap();

    assert_eq!(balance, Amount::from_afri(1_000));
}

#[test]
fn an_unfunded_account_gets_a_proof_of_absence_not_a_bare_zero() {
    let node = TestNode::new();
    let client = client(&node);
    let query = Query::Balance {
        address: addr(200),
        denom: kes(),
    };

    let response = answer(&node, &query).unwrap();
    let proved = response.as_value().unwrap();
    let key = query.store_key().unwrap();

    assert!(proved.value_unverified().is_none());
    assert_eq!(proved.verify_amount(&client, &key).unwrap(), Amount::zero());
}

#[test]
fn a_server_cannot_inflate_a_balance_it_reports() {
    let node = TestNode::new();
    let client = client(&node);
    let query = Query::Balance {
        address: addr(50),
        denom: kes(),
    };
    let key = query.store_key().unwrap();

    let honest = answer(&node, &query).unwrap();
    let proof = honest.as_value().unwrap().membership_proof().clone();
    let forged = answer_of(Some(Amount::from_afri(999_999).to_bytes()), &proof);

    assert_eq!(
        forged.verify(&client, &key).unwrap_err(),
        LightError::BadProof
    );
}

#[test]
fn a_server_cannot_deny_a_balance_that_exists() {
    let node = TestNode::new();
    let client = client(&node);
    let query = Query::Balance {
        address: addr(50),
        denom: kes(),
    };
    let key = query.store_key().unwrap();

    let honest = answer(&node, &query).unwrap();
    let proof = honest.as_value().unwrap().membership_proof().clone();
    let denial = answer_of(None, &proof);

    assert_eq!(
        denial.verify(&client, &key).unwrap_err(),
        LightError::BadProof
    );
}

#[test]
fn a_proof_for_one_account_cannot_be_replayed_for_another() {
    let node = TestNode::new();
    let client = client(&node);

    let funded = Query::Balance {
        address: addr(50),
        denom: kes(),
    };
    let other = Query::Balance {
        address: addr(200),
        denom: kes(),
    };

    let response = answer(&node, &funded).unwrap();
    let proved = response.as_value().unwrap();

    assert_eq!(
        proved
            .verify(&client, &other.store_key().unwrap())
            .unwrap_err(),
        LightError::BadProof
    );
}

#[test]
fn a_status_answer_carries_a_tip_the_client_can_check() {
    let node = TestNode::new();
    let response = answer(&node, &Query::Status).unwrap();

    let Response::Status(status) = response else {
        panic!("expected a status response");
    };
    assert_eq!(status.chain_id, chain());
    status.tip.verify(&chain(), &validators()).unwrap();
}

#[test]
fn a_header_paired_with_someone_elses_commit_is_rejected() {
    let node = TestNode::new();

    let mut impostor = node.block.header.clone();
    impostor.time = Timestamp(99);

    let forged = SignedHeader {
        header: impostor,
        commit: node.commit.clone(),
    };

    assert_eq!(
        forged.verify(&chain(), &validators()).unwrap_err(),
        LightError::HeaderMismatch
    );
}

#[test]
fn a_commit_from_the_wrong_validator_set_does_not_reach_quorum() {
    let node = TestNode::new();
    let signed = SignedHeader {
        header: node.block.header.clone(),
        commit: node.commit.clone(),
    };

    let strangers = ValidatorSet::new(
        (100u8..=103)
            .map(|i| Validator::new(key(i).public_key(), 10, CountryCode::new("ng").unwrap()))
            .collect(),
    )
    .unwrap();

    assert!(signed.verify(&chain(), &strangers).is_err());
}

#[test]
fn a_missing_height_is_an_error_rather_than_an_empty_answer() {
    let node = TestNode::new();
    let err = answer(&node, &Query::Header { height: Height(42) }).unwrap_err();
    assert_eq!(err, QueryError::NoSuchHeight(42));
}

#[test]
fn queries_and_responses_survive_a_round_trip_through_bytes() {
    let node = TestNode::new();
    let query = Query::Balance {
        address: addr(50),
        denom: kes(),
    };

    let query_bytes = query.to_bytes();
    assert_eq!(decode_exact::<Query>(&query_bytes).unwrap(), query);

    let response = answer(&node, &query).unwrap();
    let response_bytes = response.to_bytes();
    assert_eq!(decode_exact::<Response>(&response_bytes).unwrap(), response);
}

#[test]
fn a_decoded_response_still_verifies() {
    let node = TestNode::new();
    let client = client(&node);
    let query = Query::Balance {
        address: addr(50),
        denom: kes(),
    };

    let bytes = answer(&node, &query).unwrap().to_bytes();
    let decoded = decode_exact::<Response>(&bytes).unwrap();

    let balance = decoded
        .as_value()
        .unwrap()
        .verify_amount(&client, &query.store_key().unwrap())
        .unwrap();
    assert_eq!(balance, Amount::from_afri(1_000));
}

#[test]
fn a_structurally_impossible_proof_is_rejected_at_decode() {
    let mut bytes = vec![2u8]; // Response::Value
    Height::genesis().encode(&mut bytes);
    None::<Vec<u8>>.encode(&mut bytes);
    let siblings = vec![Hash32::from_bytes([7; 32]); 257];
    siblings.encode(&mut bytes);
    bytes.push(1); // ProofLeaf::Absent

    let err = decode_exact::<Response>(&bytes).unwrap_err();
    assert!(
        err.to_string().contains("maximum is 256"),
        "expected a depth-bound rejection, got: {err:?}"
    );
}

#[test]
fn a_proof_at_the_depth_limit_still_decodes() {
    let mut bytes = vec![2u8];
    Height::genesis().encode(&mut bytes);
    None::<Vec<u8>>.encode(&mut bytes);
    vec![Hash32::from_bytes([7; 32]); 256].encode(&mut bytes);
    bytes.push(1);

    assert!(decode_exact::<Response>(&bytes).is_ok());
}

#[test]
fn an_unknown_query_tag_is_rejected() {
    let err = decode_exact::<Query>(&[200]).unwrap_err();
    assert!(err.to_string().contains("Query"), "got: {err:?}");
}
