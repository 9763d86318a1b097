use afrolink::alias::Username;
use afrolink::consensus::{Equivocation, Vote, VoteType};
use afrolink::crypto::address::Address;
use afrolink::crypto::hash::Hash32;
use afrolink::crypto::keys::SecretKey;
use afrolink::pay::reference::PaymentReference;
use afrolink::primitives::amount::Amount;
use afrolink::primitives::codec::Encode;
use afrolink::primitives::denom::Denom;
use afrolink::primitives::ids::{ChainId, Height, Round};
use afrolink::types::account::Account;
use afrolink::types::tx::{Fee, Message, Transaction, TxBody, TxError, MAX_MEMO_LEN};

fn key(seed: u8) -> SecretKey {
    SecretKey::from_bytes(&[seed; 32])
}

fn chain() -> ChainId {
    ChainId::new("afrolink-1").expect("valid chain id")
}

fn kes() -> Denom {
    Denom::sovereign("ke", "kes").expect("valid denom")
}

/// Amina sends 500 KES to Kwame, paying the fee in KES — never touching AFRI.
fn payment(sender: &SecretKey) -> TxBody {
    TxBody {
        chain_id: chain(),
        sender: Address::from_public_key(&sender.public_key()),
        nonce: 0,
        valid_until: Height(1_000),
        fee: Fee::new(Amount::from_units(1_000), kes()),
        messages: vec![Message::Transfer {
            to: Address::from_public_key(&key(2).public_key()),
            denom: kes(),
            amount: Amount::from_afri(500),
            reference: None,
        }],
        memo: "school fees".to_owned(),
    }
}

#[test]
fn a_valid_payment_verifies() {
    let sk = key(1);
    let tx = payment(&sk).sign(&sk);
    assert!(tx.verify_stateless(&chain(), Height(10)).is_ok());
}

#[test]
fn a_user_can_pay_fees_without_holding_afri() {
    let sk = key(1);
    let tx = payment(&sk).sign(&sk);
    assert!(!tx.body.fee.denom.is_native());
    assert!(tx.body.fee.denom.is_sovereign());
    assert!(tx.verify_stateless(&chain(), Height(10)).is_ok());
}

#[test]
fn a_sponsor_can_cover_someone_elses_fee() {
    let sk = key(1);
    let sponsor = Address::from_public_key(&key(9).public_key());
    let mut body = payment(&sk);
    body.fee = Fee::sponsored_by(Amount::from_units(1_000), kes(), sponsor);
    let tx = body.sign_sponsored(&[&sk], &[&key(9)]);

    assert!(tx.body.fee.is_sponsored());
    assert_eq!(tx.body.fee.payer_or(tx.body.sender), sponsor);
    assert!(tx.verify_stateless(&chain(), Height(10)).is_ok());
}

#[test]
fn an_unsponsored_fee_is_charged_to_the_sender() {
    let sk = key(1);
    let tx = payment(&sk).sign(&sk);
    assert_eq!(tx.body.fee.payer_or(tx.body.sender), tx.body.sender);
}

#[test]
fn a_transaction_signed_for_another_chain_is_rejected() {
    let sk = key(1);
    let mut body = payment(&sk);
    body.chain_id = ChainId::new("afrolink-testnet-3").expect("valid");
    let tx = body.sign(&sk);
    assert!(matches!(
        tx.verify_stateless(&chain(), Height(10)),
        Err(TxError::WrongChain { .. })
    ));
}

#[test]
fn an_expired_transaction_is_rejected() {
    let sk = key(1);
    let tx = payment(&sk).sign(&sk);
    assert!(matches!(
        tx.verify_stateless(&chain(), Height(1_001)),
        Err(TxError::Expired { .. })
    ));
    assert!(
        tx.verify_stateless(&chain(), Height(1_000)).is_ok(),
        "valid_until is inclusive"
    );
}

#[test]
fn tampering_with_the_amount_invalidates_the_signature() {
    let sk = key(1);
    let mut tx = payment(&sk).sign(&sk);
    tx.body.messages = vec![Message::Transfer {
        to: Address::from_public_key(&key(2).public_key()),
        denom: kes(),
        amount: Amount::from_afri(500_000),
        reference: None,
    }];
    assert_eq!(
        tx.verify_stateless(&chain(), Height(10)),
        Err(TxError::InvalidSignature)
    );
}

#[test]
fn tampering_with_the_recipient_invalidates_the_signature() {
    let sk = key(1);
    let mut tx = payment(&sk).sign(&sk);
    tx.body.messages = vec![Message::Transfer {
        to: Address::from_public_key(&key(77).public_key()),
        denom: kes(),
        amount: Amount::from_afri(500),
        reference: None,
    }];
    assert_eq!(
        tx.verify_stateless(&chain(), Height(10)),
        Err(TxError::InvalidSignature)
    );
}

#[test]
fn a_valid_signature_from_the_wrong_key_cannot_spend_an_account() {
    let victim = Address::from_public_key(&key(1).public_key());
    let attacker = key(66);
    let mut body = payment(&key(1));
    body.sender = victim;
    let tx = body.sign(&attacker);

    assert!(
        tx.verify_stateless(&chain(), Height(10)).is_ok(),
        "the signature is genuine; authentication is not authorisation"
    );
    assert!(
        !Account::individual(victim).authorises(&tx.signing_keys()),
        "but the victim's account must not recognise the attacker's key"
    );
}

#[test]
fn signatures_must_arrive_sorted_and_unique() {
    let sk = key(1);
    let mut tx = payment(&sk).sign_with(&[&key(1), &key(2)]);
    assert!(tx.verify_stateless(&chain(), Height(10)).is_ok());

    tx.signatures.reverse();
    assert_eq!(
        tx.verify_stateless(&chain(), Height(10)),
        Err(TxError::UnsortedSignatures)
    );
    assert!(
        Transaction::from_bytes(&tx.to_bytes()).is_err(),
        "and the decoder must refuse it too, not sort it"
    );
}

#[test]
fn a_sponsored_fee_without_a_sponsor_signature_is_malformed() {
    let sk = key(1);
    let mut body = payment(&sk);
    body.fee = Fee::sponsored_by(Amount::from_units(1_000), kes(), addr(7));
    let tx = body.sign(&sk);
    assert_eq!(
        tx.verify_stateless(&chain(), Height(10)),
        Err(TxError::SponsorSignatureMismatch)
    );
}

#[test]
fn sponsor_signatures_on_an_unsponsored_fee_are_refused() {
    let sk = key(1);
    let mut tx = payment(&sk).sign(&sk);
    tx.sponsor_signatures = payment(&sk).sign(&key(7)).signatures;
    assert_eq!(
        tx.verify_stateless(&chain(), Height(10)),
        Err(TxError::SponsorSignatureMismatch)
    );
}

#[test]
fn a_sponsored_transaction_round_trips_with_both_authorities() {
    let sk = key(1);
    let mut body = payment(&sk);
    body.fee = Fee::sponsored_by(Amount::from_units(1_000), kes(), addr(7));
    let tx = body.sign_sponsored(&[&key(1)], &[&key(7)]);

    assert!(tx.verify_stateless(&chain(), Height(10)).is_ok());
    assert_eq!(tx.signing_keys(), vec![key(1).public_key()]);
    assert_eq!(tx.sponsor_keys(), vec![key(7).public_key()]);
    assert_eq!(Transaction::from_bytes(&tx.to_bytes()), Ok(tx));
}

#[test]
fn naming_yourself_as_your_own_sponsor_is_refused() {
    let sk = key(1);
    let mut body = payment(&sk);
    body.fee = Fee::sponsored_by(Amount::from_units(1_000), kes(), body.sender);
    assert_eq!(body.validate_basic(), Err(TxError::SelfSponsored));
}

#[test]
fn a_transaction_with_no_signatures_is_refused() {
    let sk = key(1);
    let mut tx = payment(&sk).sign(&sk);
    tx.signatures.clear();
    assert_eq!(
        tx.verify_stateless(&chain(), Height(10)),
        Err(TxError::SignatureCount(0))
    );
    assert!(Transaction::from_bytes(&tx.to_bytes()).is_err());
}

#[test]
fn signing_twice_with_one_key_produces_one_signature() {
    let sk = key(1);
    let tx = payment(&sk).sign_with(&[&key(1), &key(1), &key(2)]);
    assert_eq!(tx.signatures.len(), 2);
    assert!(tx.verify_stateless(&chain(), Height(10)).is_ok());
}

#[test]
fn empty_and_oversized_transactions_are_rejected() {
    let sk = key(1);
    let mut body = payment(&sk);
    body.messages.clear();
    assert_eq!(body.validate_basic(), Err(TxError::MessageCount(0)));

    let mut body = payment(&sk);
    body.memo = "x".repeat(MAX_MEMO_LEN + 1);
    assert_eq!(body.validate_basic(), Err(TxError::MemoTooLong));
}

#[test]
fn zero_value_transfers_are_rejected() {
    let sk = key(1);
    let mut body = payment(&sk);
    body.messages = vec![Message::Transfer {
        to: Address::from_public_key(&key(2).public_key()),
        denom: kes(),
        amount: Amount::zero(),
        reference: None,
    }];
    assert_eq!(body.validate_basic(), Err(TxError::ZeroAmount));
}

#[test]
fn a_transfer_is_filed_under_both_parties() {
    let sent = payment(&key(1)).sign(&key(1));

    let touched = sent.touched_addresses();
    assert!(touched.contains(&addr(1)), "sender missing");
    assert!(touched.contains(&addr(2)), "recipient missing");
    assert_eq!(touched.len(), 2);
}

#[test]
fn a_sender_only_message_files_under_the_sender_alone() {
    let renewed = with_messages(
        1,
        vec![Message::RenewName {
            name: Username::new("amina").expect("valid"),
        }],
    );
    assert_eq!(renewed.touched_addresses(), vec![addr(1)]);
}

#[test]
fn one_address_is_filed_once_however_many_times_it_appears() {
    let sent = with_messages(1, vec![transfer_to(addr(2), 1), transfer_to(addr(2), 2)]);
    assert_eq!(sent.touched_addresses().len(), 2);
}

#[test]
fn paying_yourself_is_filed_once() {
    let sent = with_messages(1, vec![transfer_to(addr(1), 1)]);
    assert_eq!(sent.touched_addresses(), vec![addr(1)]);
}

#[test]
fn a_slashing_report_files_under_the_offender_too() {
    let reported = with_messages(
        1,
        vec![Message::ReportEquivocation {
            evidence: Box::new(equivocation(3)),
        }],
    );
    assert!(
        reported.touched_addresses().contains(&addr(3)),
        "the reported validator must appear in its own history"
    );
}

fn addr(seed: u8) -> Address {
    Address::from_public_key(&key(seed).public_key())
}

fn transfer_to(to: Address, afri: u64) -> Message {
    Message::Transfer {
        to,
        denom: kes(),
        amount: Amount::from_afri(afri),
        reference: None,
    }
}

fn with_messages(sender: u8, messages: Vec<Message>) -> Transaction {
    TxBody {
        chain_id: chain(),
        sender: addr(sender),
        nonce: 0,
        valid_until: Height(1_000),
        fee: Fee::new(Amount::from_units(1_000), kes()),
        messages,
        memo: String::new(),
    }
    .sign(&key(sender))
}

/// Two conflicting precommits from one validator, at one height and round.
fn equivocation(seed: u8) -> Equivocation {
    let vote = |block: u8| {
        Vote {
            chain_id: chain(),
            height: Height(7),
            round: Round::zero(),
            vote_type: VoteType::Precommit,
            block_id: Some(Hash32::from_bytes([block; 32])),
            validator: addr(seed),
        }
        .sign(&key(seed))
    };

    Equivocation {
        validator: addr(seed),
        first: vote(1),
        second: vote(2),
    }
}

#[test]
fn a_payment_reference_survives_signing_and_the_wire() {
    let sk = key(1);
    let mut body = payment(&sk);
    body.messages = vec![Message::Transfer {
        to: Address::from_public_key(&key(2).public_key()),
        denom: kes(),
        amount: Amount::from_afri(500),
        reference: Some(PaymentReference(88_121)),
    }];
    let tx = body.sign(&sk);

    let decoded = Transaction::from_bytes(&tx.to_bytes()).expect("decodes");
    assert!(decoded.verify_stateless(&chain(), Height(10)).is_ok());
    assert_eq!(
        decoded.body.messages.first(),
        Some(&Message::Transfer {
            to: Address::from_public_key(&key(2).public_key()),
            denom: kes(),
            amount: Amount::from_afri(500),
            reference: Some(PaymentReference(88_121)),
        })
    );
}

#[test]
fn tampering_with_a_payment_reference_invalidates_the_signature() {
    let sk = key(1);
    let mut body = payment(&sk);
    body.messages = vec![Message::Transfer {
        to: Address::from_public_key(&key(2).public_key()),
        denom: kes(),
        amount: Amount::from_afri(500),
        reference: Some(PaymentReference(88_121)),
    }];
    let mut tx = body.sign(&sk);

    tx.body.messages = vec![Message::Transfer {
        to: Address::from_public_key(&key(2).public_key()),
        denom: kes(),
        amount: Amount::from_afri(500),
        reference: Some(PaymentReference(99_999)),
    }];

    assert_eq!(
        tx.verify_stateless(&chain(), Height(10)),
        Err(TxError::InvalidSignature)
    );
}

#[test]
fn transactions_round_trip_through_the_wire_format() {
    let sk = key(1);
    let tx = payment(&sk).sign(&sk);
    let decoded = Transaction::from_bytes(&tx.to_bytes()).expect("decodes");
    assert_eq!(decoded, tx);
    assert!(decoded.verify_stateless(&chain(), Height(10)).is_ok());
}

#[test]
fn trailing_bytes_on_the_wire_are_rejected() {
    let sk = key(1);
    let mut bytes = payment(&sk).sign(&sk).to_bytes();
    bytes.push(0);
    assert!(Transaction::from_bytes(&bytes).is_err());
}

#[test]
fn distinct_transactions_have_distinct_ids() {
    let sk = key(1);
    let a = payment(&sk).sign(&sk);
    let mut body = payment(&sk);
    body.nonce = 1;
    let b = body.sign(&sk);
    assert_ne!(a.id(), b.id(), "the nonce must change the transaction id");
}
