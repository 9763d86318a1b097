use afrolink::alias::Username;
use afrolink::crypto::address::Address;
use afrolink::crypto::keys::SecretKey;
use afrolink::pay::reference::PaymentReference;
use afrolink::pay::request::{Payee, PaymentRequest, RequestError, MAX_TEXT_LEN};
use afrolink::primitives::amount::Amount;
use afrolink::primitives::denom::Denom;

fn addr(seed: u8) -> Address {
    Address::from_public_key(&SecretKey::from_bytes(&[seed; 32]).public_key())
}

fn kes() -> Denom {
    Denom::sovereign("ke", "kes").expect("valid")
}

fn name(s: &str) -> Username {
    Username::new(s).expect("valid")
}

#[test]
fn a_market_stall_request_round_trips() {
    let request = PaymentRequest::new(Payee::Name(name("duka-la-amina")), kes())
        .with_amount(Amount::from_afri(250))
        .with_reference(PaymentReference(88_121))
        .with_label("Duka la Amina")
        .with_note("Sukari 2kg");

    let uri = request.to_uri();
    assert!(uri.starts_with("afri:@duka-la-amina?"), "got {uri}");
    assert_eq!(PaymentRequest::parse(&uri), Ok(request));
}

#[test]
fn a_request_can_name_a_raw_address() {
    let request = PaymentRequest::new(Payee::Address(addr(1)), kes())
        .with_reference(PaymentReference(42));
    assert_eq!(PaymentRequest::parse(&request.to_uri()), Ok(request));
}

#[test]
fn an_amount_is_optional_so_a_tip_jar_works() {
    let request = PaymentRequest::new(Payee::Name(name("amina")), kes());
    let parsed = PaymentRequest::parse(&request.to_uri()).expect("parses");
    assert_eq!(parsed.amount, None);
}

#[test]
fn a_denomination_is_never_guessed() {
    assert_eq!(
        PaymentRequest::parse("afri:@amina?amount=250"),
        Err(RequestError::BadDenom)
    );
    assert_eq!(
        PaymentRequest::parse("afri:@amina"),
        Err(RequestError::BadDenom)
    );
}

#[test]
fn a_slash_in_a_denomination_survives_the_round_trip() {
    let request = PaymentRequest::new(Payee::Name(name("amina")), kes());
    let uri = request.to_uri();
    assert!(uri.contains("denom=sov%2Fke%2Fkes"), "got {uri}");
    assert_eq!(PaymentRequest::parse(&uri).expect("parses").denom, kes());
}

#[test]
fn a_duplicated_parameter_is_refused_rather_than_resolved() {
    assert_eq!(
        PaymentRequest::parse("afri:@amina?denom=afri&amount=1&amount=1000"),
        Err(RequestError::DuplicateParameter("amount".to_owned()))
    );
}

#[test]
fn a_confusable_or_invalid_name_in_a_uri_is_rejected() {
    for uri in [
        "afri:@\u{430}mina?denom=afri",
        "afri:@am ina?denom=afri",
        "afri:@ab?denom=afri",
        "afri:@afri?denom=afri",
    ] {
        assert_eq!(
            PaymentRequest::parse(uri),
            Err(RequestError::BadRecipient),
            "{uri} must be rejected"
        );
    }
}

#[test]
fn a_corrupted_address_is_rejected_rather_than_paid() {
    let good = addr(1).to_bech32().expect("encodes");
    let mut broken = good.clone();
    broken.replace_range(good.len() - 2.., "qq");

    assert_eq!(
        PaymentRequest::parse(&format!("afri:{broken}?denom=afri")),
        Err(RequestError::BadRecipient)
    );
}

#[test]
fn the_wrong_scheme_is_rejected() {
    for uri in [
        "bitcoin:@amina?denom=afri",
        "ethereum:0xabc",
        "@amina?denom=afri",
        "",
    ] {
        assert_eq!(
            PaymentRequest::parse(uri),
            Err(RequestError::WrongScheme),
            "{uri:?} must be rejected"
        );
    }
}

#[test]
fn unknown_parameters_are_ignored_for_forward_compatibility() {
    let parsed =
        PaymentRequest::parse("afri:@amina?denom=afri&amount=5&expires=1234&campaign=harvest")
            .expect("parses");
    assert_eq!(parsed.amount, Some(Amount::from_afri(5)));
}

#[test]
fn attacker_controlled_text_is_bounded() {
    let long = "x".repeat(MAX_TEXT_LEN + 1);
    assert_eq!(
        PaymentRequest::parse(&format!("afri:@amina?denom=afri&label={long}")),
        Err(RequestError::TextTooLong)
    );
}

#[test]
fn percent_escapes_survive_and_malformed_ones_are_rejected() {
    let request =
        PaymentRequest::new(Payee::Name(name("amina")), kes()).with_note("Sukari & chai");
    assert_eq!(
        PaymentRequest::parse(&request.to_uri())
            .expect("parses")
            .note
            .as_deref(),
        Some("Sukari & chai")
    );

    for broken in [
        "afri:@amina?denom=afri&note=%",
        "afri:@amina?denom=afri&note=%ZZ",
    ] {
        assert!(
            PaymentRequest::parse(broken).is_err(),
            "{broken} must be rejected"
        );
    }
}

#[test]
fn a_plus_in_a_label_stays_a_plus() {
    let request =
        PaymentRequest::new(Payee::Name(name("amina")), kes()).with_label("+254712345678");
    assert_eq!(
        PaymentRequest::parse(&request.to_uri())
            .expect("parses")
            .label
            .as_deref(),
        Some("+254712345678")
    );
}
