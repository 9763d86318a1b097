//! Why a staking operation is refused, and what the active set is.

use crate::bank::transferred;
use crate::consensus::{power_sum, set_complaint, EquivocationView, ValidatorView};
use crate::crypto::address::Address;
use crate::crypto::hash::{digest, Domain};
use crate::primitives::amount::{amount_text, Amount};
use crate::primitives::codec::{parse_exact, Decode};
use crate::primitives::ids::{Height, Timestamp};
use crate::staking::bond::{Bond, BondView, Unbonding};
use crate::staking::error::{StakingError, StakingFault};
use crate::staking::params::StakingParams;
use crate::staking::set::{
    capped, eligible, law_a_ranking_is_complete_and_ordered, law_no_share_exceeds_the_ceiling,
    ranking, seat_powers, seated_set, seats, total,
};
use crate::staking::{
    active_in, adding, bond_in, bonding, bonds_in, bonds_of, candidates_in, comes_to, equivocates,
    queue_in, refused, slashing, staking_address, stored, unbonding, unjailing, withdrawal, Outcome,
    Records,
};
use crate::state::store::{bond_index_key, bond_key, unbonding_key, StateFault};
use vstd::prelude::*;

verus! {

/// What a refusal is: the error, and the records as they were. What an operation comes to
/// is its result and its records, both.
pub proof fn law_a_refusal_changes_nothing<T>(
    records: Records,
    fault: StakingFault,
    r: Result<T, StakingError>,
    after: Records,
    want: Outcome<T>,
)
    ensures
        refused::<T>(records, fault).result == Err::<T, StakingFault>(fault),
        refused::<T>(records, fault).records == records,
        comes_to(r, after, want) ==> after == want.records,
        comes_to(r, after, want) ==> (want.result matches Ok(v) ==> r == Ok::<T, StakingError>(v)),
        comes_to(r, after, want) ==> (want.result matches Err(f) ==> (r matches Err(e)
            && e.deep_view() == f)),
{
}

/// Evidence that is none is answered as such, and nothing changes: in particular votes of
/// different types, at different heights, in different rounds, for one block, or by
/// somebody else than the one accused.
pub proof fn law_no_evidence_no_slash(
    evidence: EquivocationView,
    set: Seq<ValidatorView>,
    records: Records,
)
    requires
        evidence.first.vote.vote_type != evidence.second.vote.vote_type
            || evidence.first.vote.height != evidence.second.vote.height
            || evidence.first.vote.round != evidence.second.vote.round
            || evidence.first.vote.block_id == evidence.second.vote.block_id
            || evidence.first.vote.validator != evidence.validator
            || evidence.second.vote.validator != evidence.validator,
    ensures
        !equivocates(evidence, set),
        refused::<Amount>(records, StakingFault::NotEquivocation) == (Outcome {
            result: Err::<Amount, StakingFault>(StakingFault::NotEquivocation),
            records,
        }),
{
}

/// Why a bond is refused, in the order in which it is looked at: nothing is offered, less
/// than the least, the operator has a bond, there are as many candidates as there may be,
/// or the operator cannot pay. A record that cannot be read is named as it is.
pub proof fn law_why_a_bond_is_refused(
    records: Records,
    params: StakingParams,
    operator: Address,
    public_key: Seq<u8>,
    country: Seq<u8>,
    amount: Amount,
)
    ensures
        ({
            let out = bonding(records, params, operator, public_key, country, amount);
            let bond = bond_in(records, operator);
            let list = candidates_in(records);
            let paid = transferred(records, operator, staking_address(), "afri"@, amount);
            let why = if amount.0 == 0 {
                Some(StakingFault::ZeroAmount)
            } else if amount.0 < params.min_bond.0 {
                Some(
                    StakingFault::BelowMinimumBond {
                        got: amount_text(amount.0 as nat),
                        min: amount_text(params.min_bond.0 as nat),
                    },
                )
            } else if bond is Err {
                Some(bond->Err_0)
            } else if bond->Ok_0 is Some {
                Some(StakingFault::AlreadyBonded)
            } else if list is Err {
                Some(list->Err_0)
            } else if list->Ok_0.len() >= params.max_candidates {
                Some(StakingFault::CandidateSetFull)
            } else if paid is Err {
                Some(StakingFault::Bank(paid->Err_0))
            } else {
                None
            };
            &&& why is None <==> out.result is Ok
            &&& why matches Some(f) ==> out.result == Err::<(), StakingFault>(f) && out.records
                == records
        }),
{
}

/// Why an addition to a stake is refused, in the order in which it is looked at. Only a
/// stake that would leave its range is refused after the payment.
pub proof fn law_why_an_addition_is_refused(records: Records, operator: Address, amount: Amount)
    ensures
        ({
            let out = adding(records, operator, amount);
            let bond = bond_in(records, operator);
            let paid = transferred(records, operator, staking_address(), "afri"@, amount);
            let why = if amount.0 == 0 {
                Some(StakingFault::ZeroAmount)
            } else if bond is Err {
                Some(bond->Err_0)
            } else if bond->Ok_0 is None {
                Some(StakingFault::NoSuchBond)
            } else if paid is Err {
                Some(StakingFault::Bank(paid->Err_0))
            } else {
                None
            };
            &&& why matches Some(f) ==> out.result == Err::<(), StakingFault>(f) && out.records
                == records
            &&& why is None && bond->Ok_0->0.bonded.0 + amount.0 > u128::MAX ==> out.result
                == Err::<(), StakingFault>(StakingFault::ZeroAmount)
            &&& why is None && bond->Ok_0->0.bonded.0 + amount.0 <= u128::MAX ==> out.result is Ok
        }),
{
}

/// Why an exit is refused, in the order in which it is looked at: nothing is asked for,
/// there is no bond, it is not as large as what is asked, or too many exits are under
/// way.
pub proof fn law_why_an_exit_is_refused(
    records: Records,
    params: StakingParams,
    operator: Address,
    amount: Amount,
    height: Height,
    now: Timestamp,
)
    ensures
        ({
            let out = unbonding(records, params, operator, amount, height, now);
            let bond = bond_in(records, operator);
            let queue = queue_in(records, operator);
            let why = if amount.0 == 0 {
                Some(StakingFault::ZeroAmount)
            } else if bond is Err {
                Some(bond->Err_0)
            } else if bond->Ok_0 is None {
                Some(StakingFault::NoSuchBond)
            } else if amount.0 > bond->Ok_0->0.bonded.0 {
                Some(
                    StakingFault::InsufficientBond {
                        requested: amount_text(amount.0 as nat),
                        bonded: amount_text(bond->Ok_0->0.bonded.0 as nat),
                    },
                )
            } else if queue is Err {
                Some(queue->Err_0)
            } else if queue->Ok_0.len() >= params.max_unbonding_entries {
                Some(StakingFault::TooManyUnbondingEntries)
            } else {
                None
            };
            &&& why is None <==> out.result is Ok
            &&& why matches Some(f) ==> out.result == Err::<(), StakingFault>(f) && out.records
                == records
        }),
{
}

/// Why a slash is refused before anything is written, in the order in which it is looked
/// at: there is no bond, or its owner is in jail already. A queue that cannot be read
/// stops a withdrawal too, and a bond that cannot be read a release.
pub proof fn law_why_a_slash_is_refused(
    records: Records,
    operator: Address,
    infraction: Height,
    now: Height,
    time: Timestamp,
)
    ensures
        ({
            let out = slashing(records, operator, infraction, now);
            let bond = bond_in(records, operator);
            let queue = queue_in(records, operator);
            let why = if bond is Err {
                Some(bond->Err_0)
            } else if bond->Ok_0 is None {
                Some(StakingFault::NoSuchBond)
            } else if bond->Ok_0->0.jailed {
                Some(StakingFault::AlreadyJailed)
            } else if queue is Err {
                Some(queue->Err_0)
            } else {
                None
            };
            why matches Some(f) ==> out.result == Err::<Amount, StakingFault>(f) && out.records
                == records
        }),
        queue_in(records, operator) matches Err(f) ==> (withdrawal(records, operator, time).result
            == Err::<Amount, StakingFault>(f) && withdrawal(records, operator, time).records
            == records),
        bond_in(records, operator) matches Err(f) ==> (unjailing(records, operator).result
            == Err::<(), StakingFault>(f) && unjailing(records, operator).records == records),
{
}

/// What is read of a stake: the bond, the queue and the list of candidates under their
/// own keys, an absent queue or list being empty. A record that does not decode is
/// corrupt, and never absent.
pub proof fn law_what_is_read_of_a_stake(records: Records, operator: Address)
    ensures
        bond_in(records, operator) == stored::<Bond>(records, bond_key(operator)),
        ({
            let queue = stored::<Vec<Unbonding>>(records, unbonding_key(operator));
            &&& queue matches Ok(Some(q)) ==> queue_in(records, operator) == Ok::<
                Seq<Unbonding>,
                StakingFault,
            >(q)
            &&& queue == Ok::<Option<Seq<Unbonding>>, StakingFault>(None) ==> queue_in(
                records,
                operator,
            ) == Ok::<Seq<Unbonding>, StakingFault>(Seq::empty())
            &&& queue matches Err(f) ==> queue_in(records, operator) == Err::<
                Seq<Unbonding>,
                StakingFault,
            >(f)
        }),
        ({
            let list = stored::<Vec<Address>>(records, bond_index_key());
            &&& list matches Ok(Some(l)) ==> candidates_in(records) == Ok::<
                Seq<Address>,
                StakingFault,
            >(l)
            &&& list == Ok::<Option<Seq<Address>>, StakingFault>(None) ==> candidates_in(records)
                == Ok::<Seq<Address>, StakingFault>(Seq::empty())
            &&& list matches Err(f) ==> candidates_in(records) == Err::<
                Seq<Address>,
                StakingFault,
            >(f)
        }),
{
}

/// What a stored record of a stake reads as.
pub proof fn law_what_a_stake_record_reads_as<T: Decode>(records: Records, key: Seq<u8>)
    ensures
        ({
            let at = digest(Domain::StateLeaf, key);
            let there = records.dom().contains(at);
            &&& !there ==> stored::<T>(records, key) == Ok::<Option<T::V>, StakingFault>(None)
            &&& there ==> (parse_exact::<T>(records[at]) matches Ok(v) ==> stored::<T>(
                records,
                key,
            ) == Ok::<Option<T::V>, StakingFault>(Some(v)))
            &&& there ==> (parse_exact::<T>(records[at]) matches Err(f) ==> stored::<T>(
                records,
                key,
            ) == Err::<Option<T::V>, StakingFault>(
                StakingFault::State(StateFault::Corrupt { key: "bond"@, reason: f.text() }),
            ))
        }),
{
}

/// What the active set is: the seats of the bonds of all listed candidates, where they
/// make a set, and otherwise an error that says that nobody is eligible. A candidate
/// whose bond cannot be read stops it.
pub proof fn law_what_the_active_set_is(records: Records, params: StakingParams)
    ensures
        candidates_in(records) matches Err(f) ==> active_in(records, params) == Err::<
            Seq<ValidatorView>,
            StakingFault,
        >(f),
        candidates_in(records) matches Ok(operators) ==> bonds_in(records) == bonds_of(
            records,
            operators,
        ),
        bonds_in(records) matches Err(f) ==> active_in(records, params) == Err::<
            Seq<ValidatorView>,
            StakingFault,
        >(f),
        bonds_in(records) matches Ok(bonds) ==> active_in(records, params) == if set_complaint(
            seated_set(bonds, params),
        ) is None {
            Ok::<Seq<ValidatorView>, StakingFault>(seated_set(bonds, params))
        } else {
            Err(StakingFault::NoEligibleValidators)
        },
{
}

/// A candidate whose bond cannot be read is never passed over.
pub proof fn law_an_unreadable_bond_is_noticed(records: Records, operators: Seq<Address>, i: int)
    requires
        0 <= i < operators.len(),
        bond_in(records, operators[i]) is Err,
    ensures
        bonds_of(records, operators) is Err,
    decreases operators.len(),
{
    if i < operators.len() - 1 {
        assert(operators.drop_last()[i] == operators[i]);
        law_an_unreadable_bond_is_noticed(records, operators.drop_last(), i);
    }
}

proof fn lemma_power_is_the_total(set: Seq<ValidatorView>, powers: Seq<u64>)
    requires
        set.len() == powers.len(),
        forall|i: int| 0 <= i < set.len() ==> (#[trigger] set[i]).voting_power == powers[i],
    ensures
        power_sum(set) == total(powers),
    decreases set.len(),
{
    if set.len() > 0 {
        let (a, b) = (set.drop_last(), powers.drop_last());
        assert forall|i: int| 0 <= i < a.len() implies (#[trigger] a[i]).voting_power == b[i] by {
            assert(set[i].voting_power == powers[i]);
        }
        lemma_power_is_the_total(a, b);
        assert(set[set.len() - 1].voting_power == powers[powers.len() - 1]);
    }
}

/// What a seat is worth: what is left, under the ceiling on any one share, of the powers
/// of those who are seated, and they are the first of the ranking. No seat has more than
/// the ceiling's share of the power of all, but for the least there is.
pub proof fn law_no_seat_exceeds_its_share(bonds: Seq<BondView>, params: StakingParams, i: int)
    requires
        0 <= i < seated_set(bonds, params).len(),
    ensures
        ({
            let ranked = ranking(bonds, params.min_bond);
            let seated = if ranked.len() > params.max_validators {
                ranked.subrange(0, params.max_validators as int)
            } else {
                ranked
            };
            let set = seated_set(bonds, params);
            let bps = params.max_single_share_bps;
            &&& seats(bonds, params) == seated
            &&& set.len() == seated.len()
            &&& set[i].voting_power == capped(seat_powers(seated), bps)[i]
            &&& 0 < bps < 10_000 ==> set[i].voting_power <= 1 || set[i].voting_power * 10_000
                <= power_sum(set) * bps
        }),
{
    let seated = seats(bonds, params);
    let bps = params.max_single_share_bps;
    let powers = capped(seat_powers(seated), bps);
    let ranked = ranking(bonds, params.min_bond);
    if ranked.len() > params.max_validators {
        assert(seated =~= ranked.subrange(0, params.max_validators as int));
    }
    crate::staking::set::law_capping_only_discards(seat_powers(seated), bps, i, i);
    lemma_power_is_the_total(seated_set(bonds, params), powers);
    if 0 < bps < 10_000 {
        law_no_share_exceeds_the_ceiling(seat_powers(seated), bps, i);
    }
}

/// Who may be seated: whoever is not in jail and has at least the least bond at stake, and
/// everybody like that is ranked.
pub proof fn law_who_may_be_seated(bonds: Seq<BondView>, min_bond: Amount, b: BondView)
    ensures
        eligible(b, min_bond) <==> !b.jailed && b.bonded.0 >= min_bond.0,
        ranking(bonds, min_bond).to_multiset().count(b) == if !b.jailed && b.bonded.0
            >= min_bond.0 {
            bonds.to_multiset().count(b)
        } else {
            0
        },
{
    law_a_ranking_is_complete_and_ordered(bonds, min_bond);
}

} // verus!
