use afrolink::crypto::address::Address;
use afrolink::crypto::keys::SecretKey;
use afrolink::primitives::amount::{Amount, SENTE_PER_AFRI};
use afrolink::primitives::country::CountryCode;
use afrolink::staking::bond::Bond;
use afrolink::staking::error::StakingError;
use afrolink::staking::params::StakingParams;
use afrolink::staking::set::{active_set, power_of};

fn key(seed: u8) -> SecretKey {
    SecretKey::from_bytes(&[seed; 32])
}

fn bond(seed: u8, afri: u64, country: &str) -> Bond {
    Bond::new(
        Address::from_public_key(&key(seed).public_key()),
        key(seed).public_key(),
        CountryCode::new(country).expect("valid"),
        Amount::from_afri(afri),
    )
}

fn params() -> StakingParams {
    StakingParams {
        min_bond: Amount::from_afri(1_000),
        max_validators: 100,
        max_single_share_bps: 1_000,
        ..StakingParams::default()
    }
}

#[test]
fn power_is_one_unit_per_whole_afri() {
    assert_eq!(power_of(Amount::from_afri(5_000)), 5_000);
    assert_eq!(power_of(Amount::from_units(SENTE_PER_AFRI - 1)), 0);
}

#[test]
fn bonds_below_the_minimum_do_not_join_the_set() {
    let bonds = vec![
        bond(1, 5_000, "ke"),
        bond(2, 999, "ng"),
        bond(3, 5_000, "za"),
    ];
    let set = active_set(&bonds, &params()).expect("two qualify");
    assert_eq!(set.validators().len(), 2);
}

#[test]
fn a_jailed_operator_is_not_in_the_set() {
    let mut jailed = bond(2, 50_000, "ng");
    jailed.jailed = true;
    let bonds = vec![bond(1, 5_000, "ke"), jailed, bond(3, 5_000, "za")];
    let set = active_set(&bonds, &params()).expect("two qualify");
    assert_eq!(
        set.validators().len(),
        2,
        "the largest bond is jailed and must not sign"
    );
}

#[test]
fn concentration_is_capped_rather_than_the_set_refused() {
    let mut bonds = vec![bond(1, 900_000, "ke")];
    for seed in 2..=10u8 {
        bonds.push(bond(seed, 11_000, "ng"));
    }
    let set = active_set(&bonds, &params()).expect("set forms");

    let total = set.total_power();
    let largest = set
        .validators()
        .iter()
        .map(|v| v.voting_power)
        .max()
        .expect("non-empty");
    let share_bps =
        u32::try_from(u128::from(largest) * 10_000 / u128::from(total)).expect("share fits");
    assert!(
        share_bps <= 1_000,
        "capped share is {share_bps}bps, limit is 1000"
    );
}

#[test]
fn capping_converges_when_several_would_breach_the_limit() {
    let bonds: Vec<Bond> = (1..=12u8).map(|s| bond(s, 100_000, "ke")).collect();
    let set = active_set(&bonds, &params()).expect("set forms");

    let total = set.total_power();
    for v in set.validators() {
        let share = u128::from(v.voting_power) * 10_000 / u128::from(total);
        assert!(share <= 1_000, "share {share}bps exceeds the cap");
    }
}

#[test]
fn an_empty_candidate_list_is_an_honest_halt() {
    assert_eq!(
        active_set(&[], &params()),
        Err(StakingError::NoEligibleValidators)
    );
}

#[test]
fn the_set_is_identical_on_every_node() {
    let mut a = vec![
        bond(1, 5_000, "ke"),
        bond(2, 5_000, "ng"),
        bond(3, 5_000, "za"),
    ];
    let b: Vec<Bond> = a.iter().rev().cloned().collect();
    a.rotate_left(1);

    let from_a = active_set(&a, &params()).expect("set forms");
    let from_b = active_set(&b, &params()).expect("set forms");
    assert_eq!(from_a.hash(), from_b.hash(), "equal stakes, one ordering");
}

#[test]
fn the_set_is_bounded_by_max_validators() {
    let bonds: Vec<Bond> = (1..=60u8).map(|s| bond(s, 5_000, "ke")).collect();
    let p = StakingParams {
        max_validators: 10,
        ..params()
    };
    let set = active_set(&bonds, &p).expect("set forms");
    assert_eq!(set.validators().len(), 10);
}

#[test]
fn the_largest_bonds_are_the_ones_selected() {
    let mut bonds: Vec<Bond> = (1..=20u8)
        .map(|s| bond(s, 1_000 + u64::from(s) * 1_000, "ke"))
        .collect();
    bonds.reverse();
    let p = StakingParams {
        max_validators: 3,
        max_single_share_bps: 10_000,
        ..params()
    };
    let set = active_set(&bonds, &p).expect("set forms");

    let mut powers: Vec<u64> = set.validators().iter().map(|v| v.voting_power).collect();
    powers.sort_unstable();
    assert_eq!(powers, vec![19_000, 20_000, 21_000]);
}
