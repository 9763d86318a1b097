use afrolink::crypto::address::Address;
use afrolink::crypto::keys::SecretKey;
use afrolink::primitives::amount::Amount;
use afrolink::primitives::codec::{decode_exact, Encode};
use afrolink::primitives::country::CountryCode;
use afrolink::primitives::ids::{Height, Timestamp};
use afrolink::staking::bond::{Bond, Unbonding};

fn entry(started: u64) -> Unbonding {
    Unbonding {
        amount: Amount::from_afri(1_000),
        started_at: Height(started),
        completes_at: Timestamp::from_millis(2_000),
    }
}

#[test]
fn an_entry_answers_for_infractions_committed_before_it_left() {
    let e = entry(100);
    assert!(e.covers(Height(99)), "bonded at 99, so still liable");
    assert!(e.covers(Height(0)));
}

#[test]
fn an_entry_does_not_answer_for_infractions_after_it_left() {
    let e = entry(100);
    assert!(!e.covers(Height(100)));
    assert!(!e.covers(Height(500)));
}

#[test]
fn maturity_is_inclusive_of_the_completion_instant() {
    let e = entry(1);
    assert!(!e.matured(Timestamp::from_millis(1_999)));
    assert!(e.matured(Timestamp::from_millis(2_000)));
    assert!(e.matured(Timestamp::from_millis(2_001)));
}

#[test]
fn records_round_trip() {
    let e = entry(7);
    assert_eq!(decode_exact::<Unbonding>(&e.to_bytes()), Ok(e));

    let bond = Bond::new(
        Address::from_public_key(
            &SecretKey::from_bytes(&[1; 32]).public_key(),
        ),
        SecretKey::from_bytes(&[1; 32]).public_key(),
        CountryCode::new("ke").expect("valid"),
        Amount::from_afri(5_000),
    );
    assert_eq!(decode_exact::<Bond>(&bond.to_bytes()), Ok(bond));
}
