use afrolink::pay::reference::{PaymentReference, RequiresReference};
use afrolink::primitives::codec::{decode_exact, Encode};

#[test]
fn a_reference_round_trips_through_text() {
    for n in [0u64, 1, 42, 1_000_000, u64::MAX] {
        let reference = PaymentReference(n);
        assert_eq!(
            PaymentReference::parse(&reference.to_decimal()),
            Some(reference)
        );
    }
}

#[test]
fn loose_parsing_is_refused() {
    for bad in [
        "", " 42", "42 ", "+42", "-42", "4 2", "42.0", "1,000", "0x2a", "42abc", "abc",
    ] {
        assert_eq!(
            PaymentReference::parse(bad),
            None,
            "{bad:?} must not parse as a reference"
        );
    }
}

#[test]
fn leading_zeros_parse_to_the_same_reference() {
    assert_eq!(PaymentReference::parse("0042"), Some(PaymentReference(42)));
}

#[test]
fn an_exchange_address_refuses_unreferenced_payments() {
    let exchange = RequiresReference::Yes;
    assert!(
        !exchange.accepts(None),
        "a deposit with no tag has no owner"
    );
    assert!(exchange.accepts(Some(PaymentReference(7))));

    let person = RequiresReference::No;
    assert!(person.accepts(None));
    assert!(person.accepts(Some(PaymentReference(7))));
}

#[test]
fn references_round_trip_through_the_wire_format() {
    let reference = PaymentReference(9_876_543_210);
    assert_eq!(
        decode_exact::<PaymentReference>(&reference.to_bytes()),
        Ok(reference)
    );
}
