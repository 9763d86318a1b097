use afrolink::alias::Username;
use afrolink::bank::{Bank, BankError};
use afrolink::consensus::{Equivocation, ValidatorSet, Vote, VoteType};
use afrolink::crypto::address::Address;
use afrolink::crypto::hash::Hash32;
use afrolink::crypto::keys::SecretKey;
use afrolink::pay::reference::PaymentReference;
use afrolink::pay::request::{
    decode_component, encode_component, Payee, PaymentRequest, RequestError,
};
use afrolink::primitives::amount::Amount;
use afrolink::primitives::codec::Encode;
use afrolink::primitives::country::CountryCode;
use afrolink::primitives::denom::Denom;
use afrolink::primitives::ids::{ChainId, Height, Round, Timestamp};
use afrolink::staking::bond::Bond;
use afrolink::staking::error::StakingError;
use afrolink::staking::params::StakingParams;
use afrolink::staking::set::{active_set, cap_concentration, power_of};
use afrolink::staking::{staking_account, Staking, SLASH_EQUIVOCATION_BPS};
use afrolink::state::store::{KeyValueStore, MemoryStore, StateError, StoreKey};
use afrolink::types::account::{
    Account, AccountFlag, AccountFlags, AuthorityError, Signer, SignerList,
};
use afrolink::types::group::{
    Contribution, FoundingMember, GroupAccount, GroupError, Member, PayoutPolicy, Quorum, Role,
};
use afrolink::types::tx::{Fee, Message, TxBody, TxError, MAX_SIGNATURES};

fn key(seed: u8) -> SecretKey {
    SecretKey::from_bytes(&[seed; 32])
}

fn addr(seed: u8) -> Address {
    Address::from_public_key(&key(seed).public_key())
}

fn ke() -> CountryCode {
    CountryCode::new("ke").unwrap()
}

fn chain() -> ChainId {
    ChainId::new("afrolink-money-test").unwrap()
}

fn native() -> Denom {
    Denom::native()
}

fn funded(afri: u64) -> MemoryStore {
    let mut store = MemoryStore::new();
    Bank::new(&mut store)
        .genesis_allocate(&addr(1), &native(), Amount::from_afri(afri))
        .unwrap();
    store
}

fn params() -> StakingParams {
    StakingParams {
        min_bond: Amount::from_afri(1_000),
        max_single_share_bps: 10_000,
        ..StakingParams::default()
    }
}

fn staked(store: &mut MemoryStore) -> Staking<'_, MemoryStore> {
    Staking::with_params(store, params())
}

fn bonded(afri: u64) -> MemoryStore {
    let mut store = funded(10_000);
    staked(&mut store)
        .bond(&addr(1), key(1).public_key(), ke(), Amount::from_afri(afri))
        .unwrap();
    store
}

#[test]
fn a_transfer_moves_what_it_says_and_keeps_the_supply() {
    let mut store = funded(100);
    let mut bank = Bank::new(&mut store);
    bank.transfer(&addr(1), &addr(2), &native(), Amount::from_afri(30))
        .unwrap();
    assert_eq!(
        bank.balance(&addr(1), &native()),
        Ok(Amount::from_afri(70))
    );
    assert_eq!(
        bank.balance(&addr(2), &native()),
        Ok(Amount::from_afri(30))
    );
    assert_eq!(bank.total_supply(&native()), Ok(Amount::from_afri(100)));
    bank.transfer(&addr(1), &addr(1), &native(), Amount::from_afri(70))
        .unwrap();
    assert_eq!(
        bank.balance(&addr(1), &native()),
        Ok(Amount::from_afri(70))
    );
}

#[test]
fn each_bank_error_leaves_the_store_as_it_was() {
    let mut store = funded(100);
    let before = store.root();
    let mut bank = Bank::new(&mut store);
    assert_eq!(
        bank.transfer(&addr(1), &addr(2), &native(), Amount::from_afri(101)),
        Err(BankError::InsufficientBalance)
    );
    assert_eq!(
        bank.genesis_allocate(&addr(1), &native(), Amount::max_value()),
        Err(BankError::Overflow)
    );
    assert_eq!(
        bank.slash_native(&addr(1), Amount::from_afri(101)),
        Err(BankError::InsufficientBalance)
    );
    assert_eq!(store.root(), before);

    let mut broken = MemoryStore::new();
    broken.set(
        &StoreKey::balance(&addr(1), &native()),
        Amount::from_afri(5).to_bytes(),
    );
    assert_eq!(
        Bank::new(&mut broken).slash_native(&addr(1), Amount::from_afri(1)),
        Err(BankError::SupplyTooSmall)
    );
    broken.set(&StoreKey::balance(&addr(1), &native()), vec![1]);
    assert!(matches!(
        Bank::new(&mut broken).balance(&addr(1), &native()),
        Err(BankError::State(StateError::Corrupt { .. }))
    ));
}

#[test]
fn each_staking_error_has_a_cause() {
    let mut store = bonded(4_000);
    let now = Timestamp::from_millis(0);
    let mut s = staked(&mut store);
    assert_eq!(
        s.add_stake(&addr(1), Amount::zero()),
        Err(StakingError::ZeroAmount)
    );
    assert_eq!(
        s.add_stake(&addr(2), Amount::from_afri(1)),
        Err(StakingError::NoSuchBond)
    );
    assert_eq!(
        s.add_stake(&addr(1), Amount::from_afri(6_001)),
        Err(StakingError::Bank(BankError::InsufficientBalance))
    );
    assert_eq!(
        s.unbond(&addr(2), Amount::from_afri(1), Height(1), now).err(),
        Some(StakingError::NoSuchBond)
    );
    assert_eq!(
        s.withdraw(&addr(1), now).err(),
        Some(StakingError::NothingMatured)
    );
    assert_eq!(s.unjail(&addr(2)), Err(StakingError::NoSuchBond));
    assert_eq!(
        s.slash(&addr(2), Height(1), Height(2)).err(),
        Some(StakingError::NoSuchBond)
    );

    let mut crowded = funded(10_000);
    let full = StakingParams {
        max_candidates: 0,
        ..params()
    };
    assert_eq!(
        Staking::with_params(&mut crowded, full).bond(
            &addr(1),
            key(1).public_key(),
            ke(),
            Amount::from_afri(2_000)
        ),
        Err(StakingError::CandidateSetFull)
    );

    let mut broken = MemoryStore::new();
    broken.set(&StoreKey::bond(&addr(1)), vec![1, 2, 3]);
    assert!(matches!(
        staked(&mut broken).bond_of(&addr(1)),
        Err(StakingError::State(StateError::Corrupt { .. }))
    ));
}

#[test]
fn stake_that_leaves_comes_back_whole() {
    let mut store = bonded(4_000);
    let now = Timestamp::from_millis(1_000);
    let later = Timestamp::from_millis(1_000 + params().unbonding_ms);
    let mut s = staked(&mut store);
    s.add_stake(&addr(1), Amount::from_afri(500)).unwrap();
    s.unbond(&addr(1), Amount::from_afri(4_500), Height(3), now)
        .unwrap();
    let early = Timestamp::from_millis(later.as_millis() - 1);
    assert_eq!(
        s.withdraw(&addr(1), early).err(),
        Some(StakingError::NothingMatured)
    );
    assert_eq!(
        s.withdraw(&addr(1), later),
        Ok(Amount::from_afri(4_500))
    );
    let bank = Bank::new(&mut store);
    assert_eq!(
        bank.balance(&addr(1), &native()),
        Ok(Amount::from_afri(10_000))
    );
    assert_eq!(
        bank.balance(&staking_account(), &native()),
        Ok(Amount::zero())
    );
}

#[test]
fn slashing_takes_its_share_of_the_bond_and_of_the_supply() {
    let mut store = bonded(4_000);
    let taken = staked(&mut store)
        .slash(&addr(1), Height(1), Height(2))
        .unwrap();
    assert_eq!(SLASH_EQUIVOCATION_BPS, 500);
    assert_eq!(taken, Amount::from_afri(200));
    assert_eq!(
        staked(&mut store).slash(&addr(1), Height(1), Height(2)),
        Err(StakingError::AlreadyJailed)
    );
    let bond = staked(&mut store).bond_of(&addr(1)).unwrap().unwrap();
    assert_eq!(bond.bonded, Amount::from_afri(3_800));
    assert!(bond.jailed);
    assert_eq!(
        Bank::new(&mut store).total_supply(&native()),
        Ok(Amount::from_afri(9_800))
    );
}

#[test]
fn slashing_takes_five_percent_of_the_largest_stake_too() {
    let mut store = MemoryStore::new();
    Bank::new(&mut store)
        .genesis_allocate(&addr(1), &native(), Amount::max_value())
        .unwrap();
    let mut s = staked(&mut store);
    s.bond(&addr(1), key(1).public_key(), ke(), Amount::max_value())
        .unwrap();
    let taken = s.slash(&addr(1), Height(1), Height(2)).unwrap();
    assert_eq!(taken, Amount::from_units(u128::MAX / 20));
    let left = s.bond_of(&addr(1)).unwrap().unwrap().bonded;
    assert_eq!(left, Amount::from_units(u128::MAX - u128::MAX / 20));
    for (bonded, want) in [
        (1_000_000_000_019u128, 50_000_000_000u128),
        (1_000_000_000_020, 50_000_000_001),
    ] {
        let mut store = MemoryStore::new();
        Bank::new(&mut store)
            .genesis_allocate(&addr(1), &native(), Amount::from_units(bonded))
            .unwrap();
        let mut s = staked(&mut store);
        s.bond(
            &addr(1),
            key(1).public_key(),
            ke(),
            Amount::from_units(bonded),
        )
        .unwrap();
        assert_eq!(
            s.slash(&addr(1), Height(1), Height(2)),
            Ok(Amount::from_units(want))
        );
    }
}

#[test]
fn a_rate_is_a_rate_however_long_the_record() {
    let mut m = Member::new(addr(1), Role::Member, 0);
    m.contributions_made = u64::MAX;
    assert_eq!(m.reliability_bps(), Some(10_000));
    m.contributions_made = u64::MAX / 2;
    m.contributions_missed = u64::MAX / 2;
    assert_eq!(m.reliability_bps(), Some(5_000));
    m.contributions_made = 2;
    m.contributions_missed = 1;
    assert_eq!(m.reliability_bps(), Some(6_666));
}

#[test]
fn a_set_forms_as_soon_as_somebody_is_eligible() {
    let bond = |seed: u8, afri: u64, jailed: bool| {
        let mut b = Bond::new(
            addr(seed),
            key(seed).public_key(),
            ke(),
            Amount::from_afri(afri),
        );
        b.jailed = jailed;
        b
    };
    let bonds = [
        bond(1, 9_000, true),
        bond(2, 999, false),
        bond(3, 1_000, false),
    ];
    let set = active_set(&bonds, &params()).unwrap();
    assert_eq!(set.validators().len(), 1);
    assert_eq!(set.validators()[0].public_key, key(3).public_key());
    assert_eq!(set.total_power(), 1_000);
    assert_eq!(
        active_set(&bonds[..2], &params()),
        Err(StakingError::NoEligibleValidators)
    );
    let none = StakingParams {
        max_validators: 0,
        ..params()
    };
    assert_eq!(
        active_set(&bonds, &none),
        Err(StakingError::NoEligibleValidators)
    );
}

#[test]
fn one_operators_trouble_leaves_the_others_alone() {
    let mut store = bonded(4_000);
    Bank::new(&mut store)
        .genesis_allocate(&addr(2), &native(), Amount::from_afri(5_000))
        .unwrap();
    staked(&mut store)
        .bond(
            &addr(2),
            key(2).public_key(),
            ke(),
            Amount::from_afri(3_000),
        )
        .unwrap();
    let now = Timestamp::from_millis(1);
    let mut s = staked(&mut store);
    s.unbond(&addr(2), Amount::from_afri(500), Height(2), now)
        .unwrap();
    let bond = s.bond_of(&addr(2));
    let queue = s.unbonding_of(&addr(2));
    s.unbond(&addr(1), Amount::from_afri(100), Height(2), now)
        .unwrap();
    s.slash(&addr(1), Height(1), Height(3)).unwrap();
    assert!(s
        .bond(&addr(2), key(2).public_key(), ke(), Amount::from_afri(1))
        .is_err());
    assert_eq!(s.bond_of(&addr(2)), bond);
    assert_eq!(s.unbonding_of(&addr(2)), queue);
    assert_eq!(
        Bank::new(&mut store).balance(&addr(2), &native()),
        Ok(Amount::from_afri(2_000))
    );
}

#[test]
fn an_ordinary_pair_of_votes_is_no_evidence() {
    let vote = |round: u32, block: Option<u8>| {
        Vote {
            chain_id: chain(),
            height: Height(1),
            round: Round(round),
            vote_type: VoteType::Prevote,
            block_id: block.map(|b| Hash32::from_bytes([b; 32])),
            validator: addr(1),
        }
        .sign(&key(1))
    };
    let set = ValidatorSet::new(vec![afrolink::consensus::Validator::new(
        key(1).public_key(),
        1,
        ke(),
    )])
    .unwrap();
    let mut store = bonded(4_000);
    let mut try_with = |second| {
        staked(&mut store).slash_equivocation(
            &Equivocation {
                validator: addr(1),
                first: vote(0, Some(1)),
                second,
            },
            &set,
            Height(2),
        )
    };
    assert_eq!(
        try_with(vote(1, Some(2))),
        Err(StakingError::NotEquivocation)
    );
    assert_eq!(
        try_with(vote(0, Some(1))),
        Err(StakingError::NotEquivocation)
    );
    assert_eq!(try_with(vote(0, Some(2))), Ok(Amount::from_afri(200)));
}

#[test]
fn capping_reaches_its_fixed_point() {
    let bond = |seed: u8, afri: u64| {
        Bond::new(
            addr(seed),
            key(seed).public_key(),
            ke(),
            Amount::from_afri(afri),
        )
    };
    let tenth = StakingParams {
        max_single_share_bps: 1_000,
        ..params()
    };
    let mut bonds = vec![bond(1, 900_000)];
    for seed in 2..=10u8 {
        bonds.push(bond(seed, 11_000));
    }
    let set = active_set(&bonds, &tenth).unwrap();
    assert_eq!(set.total_power(), 110_000);
    assert!(set.validators().iter().all(|v| v.voting_power == 11_000));

    let few = [bond(1, 5_000), bond(2, 5_000)];
    let set = active_set(&few, &tenth).unwrap();
    assert!(set.validators().iter().all(|v| v.voting_power == 1));

    assert_eq!(power_of(Amount::from_units(1_999_999_999)), 1);
    assert_eq!(power_of(Amount::max_value()), u64::MAX);
}

fn contribution(amount: Amount) -> Contribution {
    Contribution {
        amount,
        denom: native(),
        period_blocks: 100,
    }
}

fn seats(n: u8) -> Vec<Member> {
    (1..=n)
        .map(|i| {
            let role = if i == 1 { Role::Treasurer } else { Role::Member };
            FoundingMember::new(addr(i), role).into_member(0)
        })
        .collect()
}

fn group(name: &str, amount: Amount, quorum: Quorum) -> Result<GroupAccount, GroupError> {
    GroupAccount::new(
        name,
        seats(3),
        contribution(amount),
        PayoutPolicy::Accumulate,
        quorum,
        Height(5),
    )
}

#[test]
fn the_remaining_rules_of_a_group_are_enforced() {
    let amount = Amount::from_afri(1);
    let q = Quorum::two_thirds();
    assert!(group("Chama", amount, q).is_ok());
    assert_eq!(group("", amount, q).err(), Some(GroupError::InvalidName));
    assert_eq!(
        group(&"x".repeat(65), amount, q).err(),
        Some(GroupError::InvalidName)
    );
    assert_eq!(
        group("Chama", Amount::zero(), q).err(),
        Some(GroupError::ZeroContribution)
    );
    let odd = Quorum {
        numerator: 3,
        denominator: 2,
    };
    assert_eq!(
        group("Chama", amount, odd).err(),
        Some(GroupError::InvalidQuorum {
            numerator: 3,
            denominator: 2
        })
    );
}

#[test]
fn a_quorum_rounds_up() {
    let q = Quorum {
        numerator: 2,
        denominator: 3,
    };
    for (total, need) in [(1usize, 1usize), (2, 2), (3, 2), (4, 3), (5, 4), (100, 67)] {
        assert_eq!(q.required_of(total), need, "{total}");
    }
}

#[test]
fn contributions_are_counted_once_a_cycle() {
    let mut g = group("Chama", Amount::from_afri(2), Quorum::two_thirds()).unwrap();
    assert_eq!(g.pot_per_cycle(), Ok(Amount::from_afri(6)));
    assert_eq!(g.period_ends(), Height(105));
    assert_eq!(g.record_contribution(&addr(2)), Ok(()));
    assert_eq!(
        g.record_contribution(&addr(2)),
        Err(GroupError::AlreadyContributed)
    );
    assert_eq!(g.record_missed(&addr(9)), Err(GroupError::NotAMember));
    g.advance_cycle(Height(105));
    assert_eq!(g.cycle, 1);
    assert_eq!(g.record_contribution(&addr(2)), Ok(()));
    assert_eq!(g.member(&addr(2)).unwrap().contributions_made, 2);
    assert_eq!(g.member(&addr(2)).unwrap().reliability_bps(), Some(10_000));
}

#[test]
fn each_authority_error_has_a_list_that_gives_it() {
    let signer = |seed: u8, weight: u32| Signer {
        key: key(seed).public_key(),
        weight,
    };
    assert_eq!(
        SignerList::new(Vec::new(), 1).err(),
        Some(AuthorityError::NoSigners)
    );
    let mut many: Vec<Signer> = (1..=33u8).map(|s| signer(s, 1)).collect();
    many.sort_by(|a, b| a.key.as_bytes().cmp(b.key.as_bytes()));
    assert_eq!(
        SignerList::new(many, 1).err(),
        Some(AuthorityError::TooManySigners(33))
    );
    assert_eq!(
        SignerList::new(vec![signer(1, 1)], 0).err(),
        Some(AuthorityError::ZeroQuorum)
    );
    assert_eq!(
        SignerList::new(vec![signer(1, 0)], 1).err(),
        Some(AuthorityError::ZeroWeight)
    );
    assert!(matches!(
        SignerList::new(vec![signer(1, 1)], 2).err(),
        Some(AuthorityError::UnreachableQuorum { .. })
    ));
    let list = SignerList::new(vec![signer(1, 3)], 2).unwrap();
    assert_eq!(list.weight_of(&key(1).public_key()), Some(3));
    assert_eq!(list.weight_of(&key(2).public_key()), None);
}

#[test]
fn flags_are_independent_of_each_other() {
    let all = AccountFlag::all();
    for a in &all {
        let on = AccountFlags::none().with(*a, true);
        for b in &all {
            assert_eq!(on.is_set(*b), a == b);
        }
        assert_eq!(on.with(*a, false), AccountFlags::none());
        assert_eq!(AccountFlags::from_bits(on.bits()), Some(on));
    }
    let mut account = Account::with_key(key(1).public_key());
    account.flags = account.flags.with(AccountFlag::RequireReference, true);
    assert!(!account.requires_reference().accepts(None));
    assert!(account
        .requires_reference()
        .accepts(Some(PaymentReference(1))));
}

fn body(amount: Amount, fee: Amount) -> TxBody {
    TxBody {
        chain_id: chain(),
        sender: addr(1),
        nonce: 1,
        valid_until: Height(10),
        fee: Fee::new(fee, native()),
        messages: vec![Message::Transfer {
            to: addr(2),
            denom: native(),
            amount,
            reference: None,
        }],
        memo: String::new(),
    }
}

#[test]
fn the_remaining_faults_of_a_transaction_are_named() {
    let one = Amount::from_units(1);
    let now = Height(5);
    let good = body(one, one).sign(&key(1));
    assert_eq!(good.verify_stateless(&chain(), now), Ok(()));
    assert_eq!(good.verify_stateless(&chain(), Height(10)), Ok(()));
    assert_eq!(
        good.verify_stateless(&chain(), Height(11)),
        Err(TxError::Expired {
            valid_until: 10,
            current: 11
        })
    );
    assert_eq!(
        body(one, Amount::zero())
            .sign(&key(1))
            .verify_stateless(&chain(), now),
        Err(TxError::ZeroFee)
    );
    let mut crowded = good.clone();
    while crowded.signatures.len() <= MAX_SIGNATURES {
        let next = crowded.signatures[0].clone();
        crowded.signatures.push(next);
    }
    assert_eq!(
        crowded.verify_stateless(&chain(), now),
        Err(TxError::SignatureCount(33))
    );
    let mut wordy = body(one, one);
    wordy.memo = "x".repeat(257);
    assert_eq!(
        wordy.sign(&key(1)).verify_stateless(&chain(), now),
        Err(TxError::MemoTooLong)
    );
    let mut forged = good.clone();
    forged.signatures[0].signature.0[5] ^= 1;
    assert_eq!(
        forged.verify_stateless(&chain(), now),
        Err(TxError::InvalidSignature)
    );
}

#[test]
fn signing_does_not_depend_on_the_order_of_the_keys() {
    let one = Amount::from_units(1);
    let (a, b, c) = (key(1), key(2), key(3));
    let ab = body(one, one).sign_with(&[&a, &b, &c, &a]);
    let ba = body(one, one).sign_with(&[&c, &b, &a]);
    assert_eq!(ab, ba);
    assert_eq!(ab.signatures.len(), 3);
    assert_eq!(ab.id(), ba.id());
}

#[test]
fn a_request_is_written_exactly() {
    let request = PaymentRequest::new(
        Payee::Name(Username::new("amina").unwrap()),
        Denom::new("sov/ke/kes").unwrap(),
    )
    .with_amount(Amount::from_afri(250))
    .with_reference(PaymentReference(42))
    .with_label("Duka & co")
    .with_note("50%");
    let uri = request.to_uri();
    assert_eq!(
        uri,
        "afri:@amina?denom=sov%2Fke%2Fkes&amount=250.0&ref=42&label=Duka%20%26%20co&note=50%25"
    );
    assert_eq!(PaymentRequest::parse(&uri), Ok(request));
}

#[test]
fn each_request_error_has_a_text_that_gives_it() {
    let parse = |s: &str| PaymentRequest::parse(s).err();
    assert_eq!(parse("pay:@amina?denom=afri"), Some(RequestError::WrongScheme));
    assert_eq!(parse("afri:@?denom=afri"), Some(RequestError::BadRecipient));
    assert_eq!(parse("afri:@amina"), Some(RequestError::BadDenom));
    assert_eq!(parse("afri:@amina?denom=A"), Some(RequestError::BadDenom));
    assert_eq!(
        parse("afri:@amina?denom=afri&amount=x"),
        Some(RequestError::BadAmount)
    );
    assert!(matches!(
        parse("afri:@amina?denom=afri&ref=x"),
        Some(RequestError::BadParameter(_))
    ));
    assert_eq!(
        parse("afri:@amina?denom=afri&amount=1&amount=1"),
        Some(RequestError::DuplicateParameter("amount".to_string()))
    );
    let long = format!("afri:@amina?denom=afri&note={}", "x".repeat(129));
    assert_eq!(parse(&long), Some(RequestError::TextTooLong));
}

#[test]
fn every_text_survives_its_escapes() {
    for text in ["", "sov/ke/kes", "a b&c=d+e", "50%", "-_.~", "karibu \u{1F30D}"] {
        let escaped = encode_component(text);
        assert!(escaped
            .chars()
            .all(|c| c.is_ascii_alphanumeric() || "-_.~%".contains(c)));
        assert_eq!(decode_component(&escaped).as_deref(), Some(text));
    }
    assert_eq!(encode_component("a/b +"), "a%2Fb%20%2B");
    assert_eq!(decode_component("%2f").as_deref(), Some("/"));
    for bad in ["%", "%2", "%zz", "%FF"] {
        assert_eq!(decode_component(bad), None, "{bad}");
    }
}

#[test]
fn capping_twice_is_capping_once() {
    for start in [
        vec![900_000u64, 11_000, 11_000],
        vec![5, 4, 3, 2, 1, 1, 1, 1, 1, 1, 1, 1],
        vec![u64::MAX, u64::MAX, 1],
    ] {
        for bps in [0u32, 1, 1_000, 3_334, 9_999, 10_000] {
            let mut once = start.clone();
            cap_concentration(&mut once, bps);
            let mut twice = once.clone();
            cap_concentration(&mut twice, bps);
            assert_eq!(once, twice);
            if bps == 0 || bps == 10_000 {
                assert_eq!(once, start);
            }
        }
    }
}
