use afrolink::bank::Bank;
use afrolink::consensus::{Equivocation, Validator, ValidatorSet, Vote, VoteType};
use afrolink::crypto::address::Address;
use afrolink::crypto::hash::Hash32;
use afrolink::crypto::keys::SecretKey;
use afrolink::primitives::amount::Amount;
use afrolink::primitives::country::CountryCode;
use afrolink::primitives::denom::Denom;
use afrolink::primitives::ids::{ChainId, Height, Round, Timestamp};
use afrolink::staking::error::StakingError;
use afrolink::staking::params::StakingParams;
use afrolink::staking::{proves_equivocation, staking_account, Staking};
use afrolink::state::store::MemoryStore;

const DAY_MS: u64 = 24 * 60 * 60 * 1_000;

fn key(seed: u8) -> SecretKey {
    SecretKey::from_bytes(&[seed; 32])
}

fn addr(seed: u8) -> Address {
    Address::from_public_key(&key(seed).public_key())
}

fn ke() -> CountryCode {
    CountryCode::new("ke").expect("valid")
}

fn params() -> StakingParams {
    StakingParams {
        min_bond: Amount::from_afri(1_000),
        max_single_share_bps: 10_000,
        ..StakingParams::default()
    }
}

fn at(day: u64) -> Timestamp {
    Timestamp::from_millis(1_700_000_000_000 + day * DAY_MS)
}

/// A store where operators 1..=n each hold `funded` AFRI.
fn funded_store(n: u8, funded: u64) -> MemoryStore {
    let mut store = MemoryStore::new();
    let mut bank = Bank::new(&mut store);
    for seed in 1..=n {
        bank.genesis_allocate(&addr(seed), &Denom::native(), Amount::from_afri(funded))
            .expect("allocates");
    }
    store
}

fn staking(store: &mut MemoryStore) -> Staking<'_, MemoryStore> {
    Staking::with_params(store, params())
}

fn bond_one(store: &mut MemoryStore, seed: u8, afri: u64) {
    staking(store)
        .bond(
            &addr(seed),
            key(seed).public_key(),
            ke(),
            Amount::from_afri(afri),
        )
        .expect("bonds");
}

#[test]
fn bonding_moves_the_stake_out_of_the_operators_balance() {
    let mut store = funded_store(1, 10_000);
    bond_one(&mut store, 1, 4_000);

    let bank = Bank::new(&mut store);
    assert_eq!(
        bank.balance(&addr(1), &Denom::native()).expect("reads"),
        Amount::from_afri(6_000)
    );
    assert_eq!(
        bank.balance(&staking_account(), &Denom::native())
            .expect("reads"),
        Amount::from_afri(4_000)
    );
}

#[test]
fn stake_cannot_be_spent_while_bonded() {
    let mut store = funded_store(1, 10_000);
    bond_one(&mut store, 1, 9_000);

    let moved = Bank::new(&mut store).transfer(
        &addr(1),
        &addr(2),
        &Denom::native(),
        Amount::from_afri(2_000),
    );
    assert!(moved.is_err(), "only 1 000 AFRI is left unbonded");
}

#[test]
fn unbonded_stake_is_not_released_before_the_period_elapses() {
    let mut store = funded_store(1, 10_000);
    bond_one(&mut store, 1, 8_000);
    staking(&mut store)
        .unbond(&addr(1), Amount::from_afri(8_000), Height(10), at(0))
        .expect("unbonds");

    for day in [0u64, 1, 20] {
        assert_eq!(
            staking(&mut store).withdraw(&addr(1), at(day)),
            Err(StakingError::NothingMatured),
            "released on day {day}"
        );
    }
    assert_eq!(
        staking(&mut store)
            .withdraw(&addr(1), at(21))
            .expect("matured"),
        Amount::from_afri(8_000)
    );
}

#[test]
fn slashing_reaches_stake_that_has_already_begun_unbonding() {
    let mut store = funded_store(1, 100_000);
    bond_one(&mut store, 1, 50_000);
    staking(&mut store)
        .unbond(&addr(1), Amount::from_afri(50_000), Height(11), at(0))
        .expect("unbonds everything");

    assert_eq!(
        staking(&mut store)
            .bond_of(&addr(1))
            .expect("reads")
            .expect("exists")
            .bonded,
        Amount::zero(),
        "nothing is bonded any more, so only the queue can be slashed"
    );

    let burned = staking(&mut store)
        .slash(&addr(1), Height(10), Height(30))
        .expect("slashes");
    assert_eq!(
        burned,
        Amount::from_afri(2_500),
        "5% of the queued 50 000 must still be reachable"
    );

    let released = staking(&mut store)
        .withdraw(&addr(1), at(21))
        .expect("matured");
    assert_eq!(released, Amount::from_afri(47_500));
}

#[test]
fn slashing_does_not_reach_stake_that_left_before_the_infraction() {
    let mut store = funded_store(1, 100_000);
    bond_one(&mut store, 1, 50_000);
    staking(&mut store)
        .unbond(&addr(1), Amount::from_afri(20_000), Height(5), at(0))
        .expect("unbonds early");

    let burned = staking(&mut store)
        .slash(&addr(1), Height(50), Height(60))
        .expect("slashes");

    assert_eq!(burned, Amount::from_afri(1_500));
    let queue = staking(&mut store).unbonding_of(&addr(1)).expect("reads");
    assert_eq!(queue[0].amount, Amount::from_afri(20_000), "untouched");
}

#[test]
fn slashed_stake_is_destroyed_rather_than_paid_to_anyone() {
    let mut store = funded_store(1, 100_000);
    bond_one(&mut store, 1, 50_000);
    let before = Bank::new(&mut store)
        .total_supply(&Denom::native())
        .expect("reads");

    let burned = staking(&mut store)
        .slash(&addr(1), Height(1), Height(2))
        .expect("slashes");

    let after = Bank::new(&mut store)
        .total_supply(&Denom::native())
        .expect("reads");
    assert_eq!(
        after.units(),
        before.units() - burned.units(),
        "supply must fall by exactly the slashed amount"
    );
}

#[test]
fn a_slashed_validator_is_jailed_and_leaves_the_active_set() {
    let mut store = funded_store(3, 100_000);
    for seed in 1..=3u8 {
        bond_one(&mut store, seed, 10_000);
    }
    assert_eq!(
        staking(&mut store)
            .active_set()
            .expect("set forms")
            .validators()
            .len(),
        3
    );

    staking(&mut store)
        .slash(&addr(2), Height(1), Height(2))
        .expect("slashes");

    let set = staking(&mut store).active_set().expect("set forms");
    assert_eq!(set.validators().len(), 2);
    assert!(
        set.get(&addr(2)).is_none(),
        "a jailed validator must not be able to sign"
    );
}

#[test]
fn an_operator_cannot_be_slashed_twice_for_the_same_infraction() {
    let mut store = funded_store(1, 100_000);
    bond_one(&mut store, 1, 50_000);
    staking(&mut store)
        .slash(&addr(1), Height(1), Height(2))
        .expect("slashes");
    assert_eq!(
        staking(&mut store).slash(&addr(1), Height(1), Height(2)),
        Err(StakingError::AlreadyJailed)
    );
}

/// Two conflicting precommits by `seed` at the same height and round.
fn equivocation(seed: u8, height: u64) -> Equivocation {
    let make = |block: [u8; 32]| {
        Vote {
            chain_id: ChainId::new("afrolink-1").expect("valid"),
            height: Height(height),
            round: Round::zero(),
            vote_type: VoteType::Precommit,
            block_id: Some(Hash32::from_bytes(block)),
            validator: addr(seed),
        }
        .sign(&key(seed))
    };
    Equivocation {
        validator: addr(seed),
        first: make([0xAA; 32]),
        second: make([0xBB; 32]),
    }
}

fn set_of(seeds: &[u8]) -> ValidatorSet {
    ValidatorSet::new(
        seeds
            .iter()
            .map(|s| Validator::new(key(*s).public_key(), 10, ke()))
            .collect(),
    )
    .expect("valid set")
}

#[test]
fn genuine_equivocation_evidence_is_punished() {
    let mut store = funded_store(2, 100_000);
    bond_one(&mut store, 1, 50_000);
    let evidence = equivocation(1, 7);

    let burned = staking(&mut store)
        .slash_equivocation(&evidence, &set_of(&[1, 2]), Height(9))
        .expect("evidence is genuine");
    assert_eq!(burned, Amount::from_afri(2_500));
}

#[test]
fn an_accusation_without_two_real_signatures_destroys_nothing() {
    let mut store = funded_store(2, 100_000);
    bond_one(&mut store, 1, 50_000);

    let mut framed = equivocation(2, 7);
    framed.validator = addr(1);

    assert_eq!(
        staking(&mut store).slash_equivocation(&framed, &set_of(&[1, 2]), Height(9)),
        Err(StakingError::NotEquivocation)
    );
    assert_eq!(
        staking(&mut store)
            .bond_of(&addr(1))
            .expect("reads")
            .expect("exists")
            .bonded,
        Amount::from_afri(50_000),
        "an accusation must not move money"
    );
}

#[test]
fn voting_twice_at_different_heights_is_not_equivocation() {
    let a = equivocation(1, 7);
    let b = equivocation(1, 8);
    let not_evidence = Equivocation {
        validator: addr(1),
        first: a.first,
        second: b.second,
    };
    assert!(!proves_equivocation(&not_evidence, &set_of(&[1])));
}

#[test]
fn the_same_vote_twice_is_not_equivocation() {
    let e = equivocation(1, 7);
    let duplicate = Equivocation {
        validator: addr(1),
        first: e.first.clone(),
        second: e.first,
    };
    assert!(!proves_equivocation(&duplicate, &set_of(&[1])));
}

#[test]
fn evidence_against_a_non_validator_is_ignored() {
    let evidence = equivocation(9, 7);
    assert!(!proves_equivocation(&evidence, &set_of(&[1, 2])));
}

#[test]
fn an_operator_cannot_bond_twice() {
    let mut store = funded_store(1, 100_000);
    bond_one(&mut store, 1, 10_000);
    assert_eq!(
        staking(&mut store).bond(
            &addr(1),
            key(1).public_key(),
            ke(),
            Amount::from_afri(10_000)
        ),
        Err(StakingError::AlreadyBonded)
    );
}

#[test]
fn a_bond_below_the_minimum_is_refused() {
    let mut store = funded_store(1, 100_000);
    assert!(matches!(
        staking(&mut store).bond(&addr(1), key(1).public_key(), ke(), Amount::from_afri(10)),
        Err(StakingError::BelowMinimumBond { .. })
    ));
}

#[test]
fn an_operator_cannot_unbond_more_than_they_staked() {
    let mut store = funded_store(1, 100_000);
    bond_one(&mut store, 1, 10_000);
    assert!(matches!(
        staking(&mut store).unbond(&addr(1), Amount::from_afri(10_001), Height(1), at(0)),
        Err(StakingError::InsufficientBond { .. })
    ));
}

#[test]
fn the_unbonding_queue_is_bounded() {
    let mut store = funded_store(1, 1_000_000);
    bond_one(&mut store, 1, 100_000);
    let max = params().max_unbonding_entries;
    for i in 0..max {
        staking(&mut store)
            .unbond(
                &addr(1),
                Amount::from_afri(100),
                Height(i as u64 + 1),
                at(0),
            )
            .expect("queues");
    }
    assert_eq!(
        staking(&mut store).unbond(&addr(1), Amount::from_afri(100), Height(99), at(0)),
        Err(StakingError::TooManyUnbondingEntries)
    );
}

#[test]
fn only_matured_entries_are_released() {
    let mut store = funded_store(1, 1_000_000);
    bond_one(&mut store, 1, 100_000);
    staking(&mut store)
        .unbond(&addr(1), Amount::from_afri(1_000), Height(1), at(0))
        .expect("queues");
    staking(&mut store)
        .unbond(&addr(1), Amount::from_afri(2_000), Height(2), at(10))
        .expect("queues");

    let released = staking(&mut store)
        .withdraw(&addr(1), at(21))
        .expect("one matured");
    assert_eq!(released, Amount::from_afri(1_000));
    assert_eq!(
        staking(&mut store)
            .unbonding_of(&addr(1))
            .expect("reads")
            .len(),
        1
    );
}

#[test]
fn the_validator_set_tracks_stake_changes() {
    let mut store = funded_store(4, 100_000);
    for seed in 1..=3u8 {
        bond_one(&mut store, seed, 10_000);
    }
    let before = staking(&mut store).active_set().expect("set forms");

    bond_one(&mut store, 4, 10_000);
    let after = staking(&mut store).active_set().expect("set forms");

    assert_eq!(before.validators().len(), 3);
    assert_eq!(after.validators().len(), 4);
    assert_ne!(
        before.hash(),
        after.hash(),
        "a set change must be visible in the hash a header commits to"
    );
}

#[test]
fn unbonding_below_the_minimum_removes_a_validator_from_the_set() {
    let mut store = funded_store(3, 100_000);
    for seed in 1..=3u8 {
        bond_one(&mut store, seed, 10_000);
    }
    staking(&mut store)
        .unbond(&addr(3), Amount::from_afri(9_500), Height(1), at(0))
        .expect("unbonds most of it");

    let set = staking(&mut store).active_set().expect("set forms");
    assert_eq!(set.validators().len(), 2, "500 AFRI is below the minimum");
}

#[test]
fn an_unjailed_operator_can_return() {
    let mut store = funded_store(2, 100_000);
    bond_one(&mut store, 1, 50_000);
    bond_one(&mut store, 2, 50_000);
    staking(&mut store)
        .slash(&addr(1), Height(1), Height(2))
        .expect("slashes");
    assert_eq!(
        staking(&mut store)
            .active_set()
            .expect("set forms")
            .validators()
            .len(),
        1
    );

    staking(&mut store).unjail(&addr(1)).expect("released");
    assert_eq!(
        staking(&mut store)
            .active_set()
            .expect("set forms")
            .validators()
            .len(),
        2
    );
}

#[test]
fn the_candidate_index_is_ordered_identically_on_every_node() {
    let mut a = funded_store(4, 100_000);
    let mut b = funded_store(4, 100_000);
    for seed in [1u8, 2, 3, 4] {
        bond_one(&mut a, seed, 10_000);
    }
    for seed in [4u8, 3, 2, 1] {
        bond_one(&mut b, seed, 10_000);
    }
    assert_eq!(
        staking(&mut a).candidates().expect("reads"),
        staking(&mut b).candidates().expect("reads")
    );
    assert_eq!(
        staking(&mut a).active_set().expect("forms").hash(),
        staking(&mut b).active_set().expect("forms").hash()
    );
}
