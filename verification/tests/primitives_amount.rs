use afrolink::primitives::amount::Amount;
use afrolink::primitives::codec::{decode_exact, Encode};

#[test]
fn overspending_errors_instead_of_wrapping() {
    let balance = Amount::from_units(5);
    assert!(balance.checked_sub(Amount::from_units(6)).is_err());
}

#[test]
fn addition_at_the_ceiling_errors() {
    assert!(Amount::max_value().checked_add(Amount::from_units(1)).is_err());
}

#[test]
fn display_renders_nine_decimals() {
    assert_eq!(Amount::from_afri(2).to_string(), "2.0");
    assert_eq!(Amount::from_units(2_500_000_000).to_string(), "2.5");
    assert_eq!(Amount::from_units(1).to_string(), "0.000000001");
}

#[test]
fn mul_ratio_avoids_intermediate_overflow() {
    let huge = Amount::from_units(u128::MAX / 2);
    let half = huge.mul_ratio(1, 2).expect("ratio must not overflow");
    assert_eq!(half.units(), (u128::MAX / 2) / 2);
}

#[test]
fn mul_ratio_rejects_zero_denominator() {
    assert!(Amount::from_afri(1).mul_ratio(1, 0).is_err());
}

#[test]
fn amount_round_trips_through_codec() {
    let a = Amount::from_afri(1_234);
    assert_eq!(decode_exact::<Amount>(&a.to_bytes()), Ok(a));
}
