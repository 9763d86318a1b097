use afrolink::crypto::address::Address;
use afrolink::crypto::keys::{PublicKey, SecretKey};
use afrolink::pay::reference::RequiresReference;
use afrolink::primitives::amount::Amount;
use afrolink::primitives::codec::{decode_exact, Encode};
use afrolink::primitives::denom::Denom;
use afrolink::primitives::ids::Height;
use afrolink::types::account::{
    Account, AccountFlag, AccountFlags, AccountKind, AuthorityError, Signer, SignerList,
};
use afrolink::types::group::{Contribution, GroupAccount, Member, PayoutPolicy, Quorum, Role};

fn addr(seed: u8) -> Address {
    Address::from_public_key(&SecretKey::from_bytes(&[seed; 32]).public_key())
}

fn sample_group() -> GroupAccount {
    let members = vec![
        Member::new(addr(1), Role::Treasurer, 0),
        Member::new(addr(2), Role::Member, 0),
        Member::new(addr(3), Role::Member, 0),
    ];
    let order = members.iter().map(|m| m.address).collect();
    GroupAccount::new(
        "Stokvel ya Soweto",
        members,
        Contribution {
            amount: Amount::from_afri(100),
            denom: Denom::sovereign("za", "zar").expect("valid denom"),
            period_blocks: 604_800,
        },
        PayoutPolicy::Rotation { order, next: 0 },
        Quorum::two_thirds(),
        Height(0),
    )
    .expect("valid group")
}

#[test]
fn a_new_account_has_no_key_until_it_transacts() {
    let account = Account::individual(addr(1));
    assert_eq!(account.kind, AccountKind::Individual { public_key: None });
    assert_eq!(account.nonce, 0);
}

#[test]
fn module_accounts_cannot_sign() {
    let pool = Account::module(addr(200), "fee_pool");
    assert!(!pool.can_sign());
    assert!(Account::individual(addr(1)).can_sign());
}

#[test]
fn a_group_account_exposes_its_group_record() {
    let account = Account::group(addr(50), sample_group());
    let group = account.as_group().expect("is a group");
    assert_eq!(group.members.len(), 3);
    assert_eq!(group.treasurer(), Some(addr(1)));
    assert!(Account::individual(addr(1)).as_group().is_none());
}

#[test]
fn nonces_advance_and_saturate() {
    let mut account = Account::individual(addr(1));
    account.increment_nonce();
    assert_eq!(account.nonce, 1);
    account.nonce = u64::MAX;
    account.increment_nonce();
    assert_eq!(account.nonce, u64::MAX, "must saturate, not wrap");
}

#[test]
fn a_new_account_requires_nothing_of_its_senders() {
    let account = Account::individual(addr(1));
    assert_eq!(account.flags, AccountFlags::none());
    assert_eq!(account.requires_reference(), RequiresReference::No);
}

#[test]
fn setting_a_flag_leaves_the_others_alone() {
    let flags = AccountFlags::none().with(AccountFlag::RequireReference, true);
    assert!(flags.is_set(AccountFlag::RequireReference));
    assert_eq!(flags.requires_reference(), RequiresReference::Yes);

    let cleared = flags.with(AccountFlag::RequireReference, false);
    assert_eq!(cleared, AccountFlags::none());
}

#[test]
fn setting_a_flag_twice_is_the_same_as_setting_it_once() {
    let once = AccountFlags::none().with(AccountFlag::RequireReference, true);
    assert_eq!(once.with(AccountFlag::RequireReference, true), once);
}

#[test]
fn an_unknown_flag_bit_is_refused_rather_than_masked_away() {
    assert_eq!(AccountFlags::from_bits(1 << 31), None);
    let every_known: u32 = AccountFlag::all().iter().map(|f| f.bit()).sum();
    assert!(AccountFlags::from_bits(every_known).is_some());
    assert_eq!(AccountFlags::from_bits(every_known | 1 << 20), None);

    let forged = 1u32 << 31;
    assert!(
        decode_exact::<AccountFlags>(&forged.to_bytes()).is_err(),
        "an unknown bit must not decode"
    );
}

#[test]
fn a_flag_and_the_state_word_agree_on_its_number() {
    for flag in AccountFlag::all() {
        assert_eq!(AccountFlag::from_bit(flag.bit()), Some(flag));
        assert_eq!(decode_exact::<AccountFlag>(&flag.to_bytes()), Ok(flag));
        assert!(AccountFlags::none().with(flag, true).bits() == flag.bit());
    }
}

#[test]
fn a_flag_naming_no_bit_at_all_is_refused() {
    assert_eq!(AccountFlag::from_bit(0), None);
    assert!(decode_exact::<AccountFlag>(&0u32.to_bytes()).is_err());
    assert!(decode_exact::<AccountFlag>(&0b11u32.to_bytes()).is_err());
}


fn pk(seed: u8) -> PublicKey {
    SecretKey::from_bytes(&[seed; 32]).public_key()
}

/// A 2-of-3 recovery list: two family members and an agent, any two of them.
fn recovery_list() -> SignerList {
    SignerList::new(
        vec![
            Signer {
                key: pk(11),
                weight: 1,
            },
            Signer {
                key: pk(12),
                weight: 1,
            },
            Signer {
                key: pk(13),
                weight: 1,
            },
        ],
        2,
    )
    .expect("valid list")
}

#[test]
fn an_untouched_account_is_signed_for_by_its_master_key_alone() {
    let account = Account::individual(addr(1));
    assert!(account.authorises(&[pk(1)]));
    assert!(!account.authorises(&[pk(2)]));
    assert!(!account.authorises(&[]));
}

#[test]
fn a_rotated_key_signs_without_the_address_changing() {
    let mut account = Account::individual(addr(1));
    let before = account.address;
    account.regular_key = Some(pk(9));

    assert!(account.authorises(&[pk(9)]), "the new key must work");
    assert!(
        account.authorises(&[pk(1)]),
        "and the master key still does until it is disabled"
    );
    assert_eq!(account.address, before, "the address must not move");
}

#[test]
fn disabling_the_master_key_retires_an_exposed_seed() {
    let mut account = Account::individual(addr(1));
    account.regular_key = Some(pk(9));
    account.flags = account.flags.with(AccountFlag::MasterKeyDisabled, true);

    assert!(
        !account.authorises(&[pk(1)]),
        "the exposed key must no longer sign"
    );
    assert!(account.authorises(&[pk(9)]));
    assert!(account.has_a_usable_authority());
}

#[test]
fn an_account_with_no_way_to_sign_is_not_a_state_this_chain_allows() {
    let mut account = Account::individual(addr(1));
    account.flags = account.flags.with(AccountFlag::MasterKeyDisabled, true);
    assert!(
        !account.has_a_usable_authority(),
        "disabling the master with no replacement locks the funds forever"
    );
    assert!(
        decode_exact::<Account>(&account.to_bytes()).is_err(),
        "and such a record must not even decode: it can only be corruption \
         or a hostile peer, and serving it tells a wallet it is frozen"
    );
}

#[test]
fn a_quorum_of_family_can_act_but_one_member_alone_cannot() {
    let mut account = Account::individual(addr(1));
    account.signers = Some(recovery_list());

    assert!(account.authorises(&[pk(11), pk(12)]));
    assert!(account.authorises(&[pk(12), pk(13)]));
    assert!(!account.authorises(&[pk(11)]), "one signer is not a quorum");
}

#[test]
fn a_stranger_alongside_a_quorum_invalidates_the_whole_attempt() {
    let mut account = Account::individual(addr(1));
    account.signers = Some(recovery_list());
    assert!(!account.authorises(&[pk(11), pk(12), pk(99)]));
}

#[test]
fn authorities_do_not_combine() {
    let mut account = Account::individual(addr(1));
    account.signers = Some(recovery_list());
    account.regular_key = Some(pk(9));

    assert!(
        !account.authorises(&[pk(1), pk(11)]),
        "master plus a signer"
    );
    assert!(
        !account.authorises(&[pk(9), pk(11)]),
        "regular key plus a signer"
    );
    assert!(account.authorises(&[pk(9)]));
    assert!(account.authorises(&[pk(11), pk(12)]));
}

#[test]
fn weights_let_an_agent_count_for_more_than_a_neighbour() {
    let list = SignerList::new(
        vec![
            Signer {
                key: pk(11),
                weight: 2,
            },
            Signer {
                key: pk(12),
                weight: 1,
            },
            Signer {
                key: pk(13),
                weight: 1,
            },
        ],
        2,
    )
    .expect("valid list");

    assert!(list.satisfied_by(&[pk(11)]), "the agent alone");
    assert!(list.satisfied_by(&[pk(12), pk(13)]), "or two neighbours");
    assert!(!list.satisfied_by(&[pk(12)]), "but not one neighbour");
}

#[test]
fn a_signer_list_nobody_can_satisfy_is_refused() {
    let signers = vec![
        Signer {
            key: pk(11),
            weight: 1,
        },
        Signer {
            key: pk(12),
            weight: 1,
        },
    ];
    assert_eq!(
        SignerList::new(signers.clone(), 3),
        Err(AuthorityError::UnreachableQuorum {
            quorum: 3,
            total: 2
        })
    );
    assert_eq!(
        SignerList::new(signers, 0),
        Err(AuthorityError::ZeroQuorum),
        "a quorum of zero would let anyone sign"
    );
}

#[test]
fn a_signer_with_no_weight_is_refused() {
    assert_eq!(
        SignerList::new(
            vec![Signer {
                key: pk(11),
                weight: 0
            }],
            1
        ),
        Err(AuthorityError::ZeroWeight)
    );
    assert_eq!(
        SignerList::new(Vec::new(), 1),
        Err(AuthorityError::NoSigners)
    );
}

#[test]
fn a_signer_list_arrives_sorted_or_not_at_all() {
    let list = recovery_list();
    assert_eq!(
        decode_exact::<SignerList>(&list.to_bytes()),
        Ok(list.clone())
    );

    let mut out = Vec::new();
    let mut reversed: Vec<Signer> = list.signers().to_vec();
    reversed.reverse();
    reversed.encode(&mut out);
    list.quorum().encode(&mut out);
    assert!(
        decode_exact::<SignerList>(&out).is_err(),
        "an unsorted list must be refused, not reordered"
    );
}

#[test]
fn a_repeated_signer_cannot_reach_a_quorum_alone() {
    let mut out = Vec::new();
    vec![
        Signer {
            key: pk(11),
            weight: 1,
        },
        Signer {
            key: pk(11),
            weight: 1,
        },
    ]
    .encode(&mut out);
    2u32.encode(&mut out);
    assert!(decode_exact::<SignerList>(&out).is_err());
}

#[test]
fn a_module_account_can_never_be_signed_for() {
    let mut pool = Account::module(addr(200), "fee_pool");
    pool.regular_key = Some(pk(9));
    pool.signers = Some(recovery_list());
    assert!(!pool.authorises(&[pk(9)]));
    assert!(!pool.authorises(&[pk(11), pk(12)]));
}

#[test]
fn a_rotated_account_round_trips() {
    let mut account = Account::individual(addr(1));
    account.regular_key = Some(pk(9));
    account.signers = Some(recovery_list());
    account.flags = account.flags.with(AccountFlag::MasterKeyDisabled, true);
    assert_eq!(decode_exact::<Account>(&account.to_bytes()), Ok(account));
}

#[test]
fn flags_survive_the_account_record() {
    let mut account = Account::individual(addr(1));
    account.flags = account.flags.with(AccountFlag::RequireReference, true);
    let decoded = decode_exact::<Account>(&account.to_bytes()).expect("round trips");
    assert_eq!(decoded.requires_reference(), RequiresReference::Yes);
}

#[test]
fn every_account_kind_round_trips() {
    for account in [
        Account::individual(addr(1)),
        Account::with_key(SecretKey::from_bytes(&[7; 32]).public_key()),
        Account::group(addr(50), sample_group()),
        Account::module(addr(200), "fee_pool"),
    ] {
        assert_eq!(decode_exact::<Account>(&account.to_bytes()), Ok(account));
    }
}
