use afrolink::primitives::codec::{decode_exact, Encode};
use afrolink::primitives::denom::Denom;

#[test]
fn native_denom_is_recognised() {
    assert!(Denom::native().is_native());
}

#[test]
fn sovereign_denoms_are_namespaced() {
    let kes = Denom::sovereign("ke", "kes").expect("valid sovereign denom");
    assert_eq!(kes.as_str(), "sov/ke/kes");
    assert!(kes.is_sovereign());
    assert!(!kes.is_contract());
}

#[test]
fn uppercase_is_rejected_not_normalised() {
    assert!(Denom::new("KES").is_err());
}

#[test]
fn bad_country_codes_are_rejected() {
    assert!(Denom::sovereign("KEN", "kes").is_err());
    assert!(Denom::sovereign("k", "kes").is_err());
}

#[test]
fn malformed_paths_are_rejected() {
    assert!(Denom::new("sov//kes").is_err());
    assert!(Denom::new("sov/ke/").is_err());
    assert!(Denom::new("1ash").is_err());
    assert!(Denom::new("ab").is_err());
}

#[test]
fn decoding_revalidates_untrusted_bytes() {
    let mut bytes = Vec::new();
    "KES".to_owned().encode(&mut bytes);
    assert!(decode_exact::<Denom>(&bytes).is_err());
}
