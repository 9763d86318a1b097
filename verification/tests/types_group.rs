use afrolink::crypto::address::Address;
use afrolink::crypto::keys::SecretKey;
use afrolink::primitives::amount::Amount;
use afrolink::primitives::codec::{decode_exact, Encode};
use afrolink::primitives::denom::Denom;
use afrolink::primitives::ids::Height;
use afrolink::types::group::{
    Contribution, GroupAccount, GroupError, Member, PayoutPolicy, Quorum, Role, MAX_GROUP_MEMBERS,
};

fn addr(seed: u8) -> Address {
    Address::from_public_key(&SecretKey::from_bytes(&[seed; 32]).public_key())
}

fn kes() -> Denom {
    Denom::sovereign("ke", "kes").expect("valid denom")
}

fn contribution() -> Contribution {
    Contribution {
        amount: Amount::from_afri(500),
        denom: kes(),
        period_blocks: 604_800,
    }
}

/// A five-member chama with a rotating pot — the canonical shape.
fn chama(n: u8) -> GroupAccount {
    let members: Vec<Member> = (0..n)
        .map(|i| {
            let role = if i == 0 {
                Role::Treasurer
            } else {
                Role::Member
            };
            Member::new(addr(i + 1), role, 0)
        })
        .collect();
    let order: Vec<Address> = members.iter().map(|m| m.address).collect();
    GroupAccount::new(
        "Mama Mboga Chama",
        members,
        contribution(),
        PayoutPolicy::Rotation { order, next: 0 },
        Quorum::two_thirds(),
        Height(0),
    )
    .expect("valid chama")
}

#[test]
fn a_rotation_pays_every_member_exactly_once_per_full_cycle() {
    let mut group = chama(5);
    let mut paid = Vec::new();
    for _ in 0..5 {
        paid.push(group.next_recipient().expect("rotation has a recipient"));
        group.advance_cycle(Height(0));
    }
    let mut sorted = paid.clone();
    sorted.sort_unstable();
    sorted.dedup();
    assert_eq!(
        sorted.len(),
        5,
        "each member must be paid exactly once: {paid:?}"
    );
    assert_eq!(
        group.next_recipient(),
        Some(addr(1)),
        "rotation must wrap back to the first member"
    );
}

#[test]
fn the_pot_equals_every_members_contribution() {
    let group = chama(5);
    assert_eq!(
        group.pot_per_cycle().expect("no overflow"),
        Amount::from_afri(2_500)
    );
}

#[test]
fn duplicate_members_are_rejected() {
    let members = vec![
        Member::new(addr(1), Role::Treasurer, 0),
        Member::new(addr(1), Role::Member, 0),
    ];
    let order = vec![addr(1), addr(1)];
    assert_eq!(
        GroupAccount::new(
            "dup",
            members,
            contribution(),
            PayoutPolicy::Rotation { order, next: 0 },
            Quorum::two_thirds(),
            Height(0)
        ),
        Err(GroupError::DuplicateMember)
    );
}

#[test]
fn a_rotation_order_omitting_a_member_is_rejected() {
    let members: Vec<Member> = (0..3)
        .map(|i| {
            Member::new(
                addr(i + 1),
                if i == 0 {
                    Role::Treasurer
                } else {
                    Role::Member
                },
                0,
            )
        })
        .collect();
    let short_order = vec![addr(1), addr(2)];
    assert_eq!(
        GroupAccount::new(
            "short",
            members,
            contribution(),
            PayoutPolicy::Rotation {
                order: short_order,
                next: 0
            },
            Quorum::two_thirds(),
            Height(0)
        ),
        Err(GroupError::InvalidRotationOrder)
    );
}

#[test]
fn a_rotation_order_naming_a_non_member_is_rejected() {
    let members: Vec<Member> = (0..3)
        .map(|i| {
            Member::new(
                addr(i + 1),
                if i == 0 {
                    Role::Treasurer
                } else {
                    Role::Member
                },
                0,
            )
        })
        .collect();
    let stranger_order = vec![addr(1), addr(2), addr(99)];
    assert_eq!(
        GroupAccount::new(
            "stranger",
            members,
            contribution(),
            PayoutPolicy::Rotation {
                order: stranger_order,
                next: 0
            },
            Quorum::two_thirds(),
            Height(0)
        ),
        Err(GroupError::InvalidRotationOrder)
    );
}

#[test]
fn groups_need_two_members_and_exactly_one_treasurer() {
    let solo = vec![Member::new(addr(1), Role::Treasurer, 0)];
    assert_eq!(
        GroupAccount::new(
            "solo",
            solo,
            contribution(),
            PayoutPolicy::Accumulate,
            Quorum::two_thirds(),
            Height(0)
        ),
        Err(GroupError::TooFewMembers(1))
    );

    let no_treasurer = vec![
        Member::new(addr(1), Role::Member, 0),
        Member::new(addr(2), Role::Member, 0),
    ];
    assert_eq!(
        GroupAccount::new(
            "none",
            no_treasurer,
            contribution(),
            PayoutPolicy::Accumulate,
            Quorum::two_thirds(),
            Height(0)
        ),
        Err(GroupError::TreasurerCount(0))
    );

    let two_treasurers = vec![
        Member::new(addr(1), Role::Treasurer, 0),
        Member::new(addr(2), Role::Treasurer, 0),
    ];
    assert_eq!(
        GroupAccount::new(
            "two",
            two_treasurers,
            contribution(),
            PayoutPolicy::Accumulate,
            Quorum::two_thirds(),
            Height(0)
        ),
        Err(GroupError::TreasurerCount(2))
    );
}

#[test]
fn quorum_rounds_up_so_a_minority_cannot_move_the_pot() {
    assert_eq!(Quorum::two_thirds().required_of(4), 3);
    assert_eq!(Quorum::two_thirds().required_of(3), 2);
    assert_eq!(Quorum::two_thirds().required_of(5), 4);
    assert_eq!(Quorum::two_thirds().required_of(0), 0);
}

#[test]
fn invalid_quorums_are_rejected() {
    assert!(
        Quorum {
            numerator: 1,
            denominator: 0
        }
        .validate()
        .is_err()
    );
    assert!(
        Quorum {
            numerator: 4,
            denominator: 3
        }
        .validate()
        .is_err()
    );
    assert!(
        Quorum {
            numerator: 0,
            denominator: 3
        }
        .validate()
        .is_err()
    );
}

#[test]
fn contribution_history_becomes_a_credit_signal() {
    let mut group = chama(3);
    let member = addr(2);
    for cycle in 0..10u64 {
        if cycle != 4 {
            group.record_contribution(&member).expect("member exists");
        }
        group.advance_cycle(Height(cycle));
    }

    let m = group.member(&member).expect("member exists");
    assert_eq!(m.contributions_due(), 10);
    assert_eq!(m.reliability_bps(), Some(9_000), "9 of 10 on time = 90%");
}

#[test]
fn a_member_cannot_pay_twice_in_one_cycle_to_inflate_their_record() {
    let mut group = chama(3);
    let member = addr(2);
    group.record_contribution(&member).expect("member exists");
    assert_eq!(
        group.record_contribution(&member),
        Err(GroupError::AlreadyContributed)
    );
    assert_eq!(group.member(&member).expect("exists").contributions_made, 1);
}

#[test]
fn a_cycle_is_due_when_everyone_has_paid_or_the_period_runs_out() {
    let mut group = chama(3);
    let opened = group.cycle_started;
    let deadline = group.period_ends();

    assert!(!group.payout_due(opened), "nobody has paid yet");
    assert!(
        group.payout_due(deadline),
        "the agreed period expiring closes the cycle regardless"
    );

    for who in [addr(1), addr(2), addr(3)] {
        group.record_contribution(&who).expect("member exists");
    }
    assert!(
        group.payout_due(opened),
        "and everyone paying closes it immediately"
    );
}

#[test]
fn a_group_larger_than_any_real_one_is_refused() {
    let members: Vec<Member> = (0..=u8::try_from(MAX_GROUP_MEMBERS).unwrap())
        .map(|i| {
            Member::new(
                addr(i),
                if i == 0 {
                    Role::Treasurer
                } else {
                    Role::Member
                },
                0,
            )
        })
        .collect();
    let n = members.len();
    assert_eq!(
        GroupAccount::new(
            "crowd",
            members,
            contribution(),
            PayoutPolicy::Accumulate,
            Quorum::two_thirds(),
            Height(0)
        ),
        Err(GroupError::TooManyMembers(n))
    );
}

#[test]
fn a_member_with_no_history_is_unrated_not_perfect() {
    let group = chama(3);
    assert_eq!(
        group.member(&addr(2)).expect("exists").reliability_bps(),
        None
    );
}

#[test]
fn non_members_cannot_have_contributions_recorded() {
    let mut group = chama(3);
    assert_eq!(
        group.record_contribution(&addr(200)),
        Err(GroupError::NotAMember)
    );
}

#[test]
fn accumulating_groups_have_no_rotation_recipient() {
    let members = vec![
        Member::new(addr(1), Role::Treasurer, 0),
        Member::new(addr(2), Role::Member, 0),
    ];
    let vsla = GroupAccount::new(
        "VSLA",
        members,
        contribution(),
        PayoutPolicy::Accumulate,
        Quorum::two_thirds(),
        Height(0),
    )
    .expect("valid VSLA");
    assert_eq!(vsla.next_recipient(), None);
}

#[test]
fn group_round_trips_through_the_canonical_codec() {
    let group = chama(4);
    assert_eq!(decode_exact::<GroupAccount>(&group.to_bytes()), Ok(group));
}

#[test]
fn treasurer_is_identifiable() {
    assert_eq!(chama(4).treasurer(), Some(addr(1)));
}
