use afrolink::primitives::codec::{decode_exact, Encode};
use afrolink::primitives::country::CountryCode;

#[test]
fn only_two_lowercase_letters_are_a_country() {
    assert!(CountryCode::new("ke").is_ok());
    for bad in ["KE", "Ke", "k", "ken", "", "k1", "k ", "ké"] {
        assert!(CountryCode::new(bad).is_err(), "{bad:?} must be refused");
    }
}

#[test]
fn a_code_that_could_be_written_two_ways_is_refused_on_decode() {
    assert!(decode_exact::<CountryCode>(b"ke").is_ok());
    for bad in [b"KE", b"Ke", b"k1", b"\x00\x00"] {
        assert!(
            decode_exact::<CountryCode>(bad).is_err(),
            "{bad:?} must not decode"
        );
    }
}

#[test]
fn country_codes_round_trip() {
    let ke = CountryCode::new("ke").expect("valid");
    assert_eq!(decode_exact::<CountryCode>(&ke.to_bytes()), Ok(ke));
    assert_eq!(ke.to_string(), "ke");
}
