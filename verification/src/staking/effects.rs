//! What each staking operation does to what can be read back, figure by figure.

use crate::bank::{
    amount_at, destroyed, law_transfers_conserve, lemma_other_amounts_stay, transferred,
    with_amount, BankFault,
};
use crate::consensus::{EquivocationView, ValidatorView};
use crate::crypto::address::{address_in, key_address, Address};
use crate::crypto::hash::Domain;
use crate::crypto::keys::{signed_by, PublicKey};
use crate::primitives::amount::Amount;
use crate::primitives::codec::{
    law_decode_exact_inverts_encode, Canonical, MAX_FIELD_LEN,
};
use crate::primitives::country::CountryCode;
use crate::primitives::ids::{Height, Timestamp};
use crate::primitives::order::lex_less;
use crate::staking::bond::{BondView, Unbonding};
use crate::staking::error::StakingFault;
use crate::staking::index::{in_order, law_filing_sorts, no_later};
use crate::staking::laws::{
    lemma_bond_read_is_valid, lemma_bond_written, lemma_queue_read_is_short, lemma_queue_written,
    own_record, paths_apart, vault,
};
use crate::staking::params::StakingParams;
use crate::staking::{
    adding, bond_in, bonding, bonds_of, candidates_in, entries_due, equivocates,
    law_slashing_takes_its_share, left_of_all, queue_in, queued, slashing, slice_of,
    staking_address, taken_from_all, unbonding, unjailing, with_bond, with_candidates, with_queue,
    withdrawal, Records,
};
use crate::state::store::{balance_key, supply_key};
use vstd::prelude::*;
use vstd::utf8::encode_utf8;

verus! {

/// What is on its way out is the sum of what the entries of the queue hold.
pub proof fn law_what_is_queued_is_the_sum(queue: Seq<Unbonding>)
    ensures
        queued(queue) == queue.fold_left(0int, |t: int, e: Unbonding| t + e.amount.0),
    decreases queue.len(),
{
    if queue.len() > 0 {
        law_what_is_queued_is_the_sum(queue.drop_last());
    }
}

/// What slashing takes of a queue: of every entry that began to leave after the
/// infraction its five hundredths, rounded down, and of the others nothing.
pub proof fn law_the_queue_is_charged_entry_by_entry(queue: Seq<Unbonding>, infraction: Height)
    ensures
        taken_from_all(queue, infraction) == queue.fold_left(
            0int,
            |t: int, e: Unbonding|
                t + if e.started_at.0 > infraction.0 {
                    e.amount.0 * 500 / 10_000
                } else {
                    0
                },
        ),
        left_of_all(queue, infraction).len() == queue.len(),
        forall|i: int|
            #![trigger left_of_all(queue, infraction)[i]]
            0 <= i < queue.len() ==> {
                let left = left_of_all(queue, infraction)[i];
                &&& left.started_at == queue[i].started_at
                &&& left.completes_at == queue[i].completes_at
                &&& left.amount.0 == queue[i].amount.0 - if queue[i].started_at.0 > infraction.0 {
                    queue[i].amount.0 * 500 / 10_000
                } else {
                    0
                }
            },
    decreases queue.len(),
{
    assert forall|i: int| #![trigger left_of_all(queue, infraction)[i]] 0 <= i
        < queue.len() implies {
        let left = left_of_all(queue, infraction)[i];
        &&& left.started_at == queue[i].started_at
        &&& left.completes_at == queue[i].completes_at
        &&& left.amount.0 == queue[i].amount.0 - if queue[i].started_at.0 > infraction.0 {
            queue[i].amount.0 * 500 / 10_000
        } else {
            0
        }
    } by {
        law_slashing_takes_its_share(queue[i].amount);
    }
    if queue.len() > 0 {
        law_the_queue_is_charged_entry_by_entry(queue.drop_last(), infraction);
        law_slashing_takes_its_share(queue.last().amount);
    }
}

/// A slash takes its five hundredths, rounded down, of the bond whatever is in the queue,
/// and of every queue entry that was still bonded at the infraction, and returns the sum.
/// The operator is jailed from this height on; nothing else of the bond or of an entry
/// changes, nor who the candidates are. Keys whose paths clash are left out.
pub proof fn law_a_slash_takes_from_bond_and_queue(
    records: Records,
    operator: Address,
    infraction: Height,
    now: Height,
)
    requires
        paths_apart(operator),
        own_record(records, operator),
        slashing(records, operator, infraction, now).result is Ok,
    ensures
        ({
            let after = slashing(records, operator, infraction, now).records;
            let burned = slashing(records, operator, infraction, now).result->Ok_0.0;
            &&& bond_in(records, operator) matches Ok(Some(bond))
            &&& queue_in(records, operator) matches Ok(queue)
            &&& bond_in(after, operator) matches Ok(Some(cut))
            &&& queue_in(after, operator) matches Ok(left)
            &&& cut.bonded.0 == bond.bonded.0 - bond.bonded.0 * 500 / 10_000
            &&& cut == (BondView {
                bonded: cut.bonded,
                jailed: true,
                jailed_at: Some(now),
                ..bond
            })
            &&& left.len() == queue.len()
            &&& forall|i: int|
                #![trigger left[i]]
                #![trigger queue[i]]
                0 <= i < queue.len() ==> {
                    &&& left[i].started_at == queue[i].started_at
                    &&& left[i].completes_at == queue[i].completes_at
                    &&& left[i].amount.0 == queue[i].amount.0 - if queue[i].started_at.0
                        > infraction.0 {
                        queue[i].amount.0 * 500 / 10_000
                    } else {
                        0
                    }
                }
            &&& burned == bond.bonded.0 * 500 / 10_000 + queue.fold_left(
                0int,
                |t: int, e: Unbonding|
                    t + if e.started_at.0 > infraction.0 {
                        e.amount.0 * 500 / 10_000
                    } else {
                        0
                    },
            )
            &&& candidates_in(after) == candidates_in(records)
            &&& amount_at(after, balance_key(operator, "afri"@)) == amount_at(
                records,
                balance_key(operator, "afri"@),
            )
        }),
{
    lemma_bond_read_is_valid(records, operator);
    lemma_queue_read_is_short(records, operator);
    let bond = bond_in(records, operator)->Ok_0->0;
    let queue = queue_in(records, operator)->Ok_0;
    law_slashing_takes_its_share(bond.bonded);
    law_the_queue_is_charged_entry_by_entry(queue, infraction);
    let cut = BondView {
        bonded: Amount((bond.bonded.0 - slice_of(bond.bonded).0) as u128),
        jailed: true,
        jailed_at: Some(now),
        ..bond
    };
    let left = left_of_all(queue, infraction);
    let middle = with_bond(records, cut);
    let written = with_queue(middle, operator, left);
    lemma_bond_written(records, cut);
    lemma_queue_written(middle, operator, left);
    assert(bond_in(written, operator) == bond_in(middle, operator));
    assert(candidates_in(written) == candidates_in(records));
    let burned = slice_of(bond.bonded).0 + taken_from_all(queue, infraction);
    let purse = balance_key(operator, "afri"@);
    assert(amount_at(written, purse) == amount_at(records, purse));
    if burned != 0 {
        let (held, supply) = (balance_key(staking_address(), "afri"@), supply_key("afri"@));
        let a = vault(written)->Ok_0;
        let t = amount_at(written, supply)->Ok_0;
        let paid = with_amount(written, held, a.0 - burned);
        let after = with_amount(paid, supply, t.0 - burned);
        assert(destroyed(written, staking_address(), "afri"@, Amount(burned as u128)) == Ok::<
            Records,
            BankFault,
        >(after));
        assert(bond_in(after, operator) == bond_in(written, operator));
        assert(queue_in(after, operator) == queue_in(written, operator));
        assert(candidates_in(after) == candidates_in(written));
        lemma_other_amounts_stay(written, held, a.0 - burned, purse);
        lemma_other_amounts_stay(paid, supply, t.0 - burned, purse);
    }
}

/// A slash comes off exactly where there is a bond that is not jailed, the queue can be
/// read, and what is to be destroyed is in the module account and in circulation. Keys
/// whose paths clash are left out.
pub proof fn law_when_a_slash_comes_off(
    records: Records,
    operator: Address,
    infraction: Height,
    now: Height,
)
    requires
        paths_apart(operator),
    ensures
        ({
            let r = slashing(records, operator, infraction, now).result;
            &&& bond_in(records, operator) == Ok::<Option<BondView>, StakingFault>(None) ==> r
                == Err::<Amount, StakingFault>(StakingFault::NoSuchBond)
            &&& bond_in(records, operator) matches Ok(Some(bond)) ==> (bond.jailed ==> r == Err::<
                Amount,
                StakingFault,
            >(StakingFault::AlreadyJailed))
            &&& bond_in(records, operator) is Err ==> r is Err
            &&& bond_in(records, operator) matches Ok(Some(bond)) ==> (!bond.jailed && queue_in(
                records,
                operator,
            ) is Ok && own_record(records, operator) ==> {
                let share = bond.bonded.0 * 500 / 10_000 + queue_in(
                    records,
                    operator,
                )->Ok_0.fold_left(
                    0int,
                    |t: int, e: Unbonding|
                        t + if e.started_at.0 > infraction.0 {
                            e.amount.0 * 500 / 10_000
                        } else {
                            0
                        },
                );
                r is Ok <==> share == 0 || {
                    &&& vault(records) matches Ok(v) && v.0 >= share
                    &&& amount_at(records, supply_key("afri"@)) matches Ok(t) && t.0 >= share
                }
            })
        }),
{
    if bond_in(records, operator) is Ok && bond_in(records, operator)->Ok_0 is Some && queue_in(
        records,
        operator,
    ) is Ok && own_record(records, operator) {
        let bond = bond_in(records, operator)->Ok_0->0;
        let queue = queue_in(records, operator)->Ok_0;
        law_slashing_takes_its_share(bond.bonded);
        law_the_queue_is_charged_entry_by_entry(queue, infraction);
        let cut = BondView {
            bonded: Amount((bond.bonded.0 - slice_of(bond.bonded).0) as u128),
            jailed: true,
            jailed_at: Some(now),
            ..bond
        };
        let written = with_queue(
            with_bond(records, cut),
            operator,
            left_of_all(queue, infraction),
        );
        assert(vault(written) == vault(records));
        assert(amount_at(written, supply_key("afri"@)) == amount_at(
            records,
            supply_key("afri"@),
        ));
    }
}

/// Votes are evidence exactly where they are two votes of one validator of the set, both
/// genuinely signed, of one kind and for one height and round, and for different blocks.
pub proof fn law_what_counts_as_equivocation(e: EquivocationView, set: Seq<ValidatorView>)
    requires
        forall|i: int, j: int|
            0 <= i < j < set.len() ==> (#[trigger] set[i]).address() != (
            #[trigger] set[j]).address(),
    ensures
        equivocates(e, set) <==> {
            &&& e.first.vote.validator == e.validator
            &&& e.second.vote.validator == e.validator
            &&& e.first.vote.height == e.second.vote.height
            &&& e.first.vote.round == e.second.vote.round
            &&& e.first.vote.vote_type == e.second.vote.vote_type
            &&& e.first.vote.block_id != e.second.vote.block_id
            &&& exists|i: int|
                #![trigger set[i]]
                0 <= i < set.len() && key_address(set[i].public_key) == e.validator && signed_by(
                    set[i].public_key,
                    Domain::VoteSignDoc,
                    e.first.vote.document(),
                    e.first.signature,
                ) && signed_by(
                    set[i].public_key,
                    Domain::VoteSignDoc,
                    e.second.vote.document(),
                    e.second.signature,
                )
        },
{
    crate::consensus::law_lookup_finds_the_validator(set, e.validator);
}

/// Bonding comes off exactly where the amount is not zero and not below the minimum, the
/// operator has no bond yet, there is room for a candidate, and the operator can pay. A
/// refusal leaves everything as it was.
pub proof fn law_when_bonding_comes_off(
    records: Records,
    params: StakingParams,
    operator: Address,
    public_key: Seq<u8>,
    country: Seq<u8>,
    amount: Amount,
)
    ensures
        ({
            let out = bonding(records, params, operator, public_key, country, amount);
            &&& out.result is Ok <==> {
                &&& amount.0 > 0
                &&& amount.0 >= params.min_bond.0
                &&& bond_in(records, operator) == Ok::<Option<BondView>, StakingFault>(None)
                &&& candidates_in(records) matches Ok(list) && list.len() < params.max_candidates
                &&& transferred(records, operator, staking_address(), "afri"@, amount) is Ok
            }
            &&& out.result is Err ==> out.records == records
            &&& amount.0 == 0 ==> out.result == Err::<(), StakingFault>(StakingFault::ZeroAmount)
            &&& 0 < amount.0 < params.min_bond.0 ==> (out.result matches Err(f) && f
                is BelowMinimumBond)
            &&& amount.0 > 0 && amount.0 >= params.min_bond.0
                && (bond_in(records, operator) matches Ok(
                Some(_),
            )) ==> out.result == Err::<(), StakingFault>(StakingFault::AlreadyBonded)
        }),
{
}

/// Bonding files the bond that was asked for, not jailed, and adds the operator to the
/// candidates, which stay in address order; the queue is as it was. Keys whose paths
/// clash, and more candidates than can be stored, are left out.
pub proof fn law_bonding_files_the_bond(
    records: Records,
    params: StakingParams,
    operator: Address,
    public_key: Seq<u8>,
    country: Seq<u8>,
    amount: Amount,
)
    requires
        paths_apart(operator),
        PublicKey::valid(public_key),
        CountryCode::valid(country),
        params.max_candidates <= MAX_FIELD_LEN,
        bonding(records, params, operator, public_key, country, amount).result is Ok,
    ensures
        ({
            let after = bonding(records, params, operator, public_key, country, amount).records;
            let purse = balance_key(operator, "afri"@);
            &&& bond_in(after, operator) == Ok::<Option<BondView>, StakingFault>(
                Some(
                    BondView {
                        operator,
                        public_key,
                        country,
                        bonded: amount,
                        jailed: false,
                        jailed_at: None,
                    },
                ),
            )
            &&& queue_in(after, operator) == queue_in(records, operator)
            &&& candidates_in(after) matches Ok(list)
            &&& list.to_multiset() == candidates_in(records)->Ok_0.to_multiset().insert(operator)
            &&& forall|i: int, j: int|
                0 <= i < j < list.len() ==> !lex_less(
                    (#[trigger] list[j]).0@,
                    (#[trigger] list[i]).0@,
                )
            &&& vault(after)->Ok_0.0 == vault(records)->Ok_0.0 + amount.0
            &&& amount_at(after, purse)->Ok_0.0 == amount_at(records, purse)->Ok_0.0 - amount.0
            &&& amount_at(after, supply_key("afri"@)) == amount_at(records, supply_key("afri"@))
        }),
{
    broadcast use vstd::seq_lib::group_to_multiset_ensures;

    let paid = transferred(records, operator, staking_address(), "afri"@, amount)->Ok_0;
    law_transfers_conserve(
        records,
        operator,
        staking_address(),
        "afri"@,
        amount,
        supply_key("afri"@),
    );
    let bond = BondView {
        operator,
        public_key,
        country,
        bonded: amount,
        jailed: false,
        jailed_at: None,
    };
    lemma_bond_written(paid, bond);
    let list = candidates_in(records)->Ok_0;
    let filed = in_order(list.push(operator));
    law_filing_sorts(list.push(operator));
    assert forall|i: int, j: int| 0 <= i < j < filed.len() implies !lex_less(
        (#[trigger] filed[j]).0@,
        (#[trigger] filed[i]).0@,
    ) by {
        assert(no_later()(filed[i], filed[j]));
    }
    assert(list.push(operator).to_multiset() =~= list.to_multiset().insert(operator));
    assert(filed.to_multiset().len() == filed.len());
    assert(list.push(operator).to_multiset().len() == list.len() + 1);
    assert forall|i: int| 0 <= i < filed.len() implies Address::valid(#[trigger] filed[i]) by {}
    law_decode_exact_inverts_encode::<Vec<Address>>(filed);
    let after = with_candidates(with_bond(paid, bond), filed);
    assert(bond_in(after, operator) == bond_in(with_bond(paid, bond), operator));
    assert(queue_in(after, operator) == queue_in(records, operator));
    assert(candidates_in(after) == Ok::<Seq<Address>, StakingFault>(filed));
}

/// Adding stake comes off exactly where the amount is not zero, there is a bond, the
/// operator can pay, and the sum can be expressed.
pub proof fn law_when_adding_comes_off(records: Records, operator: Address, amount: Amount)
    ensures
        ({
            let out = adding(records, operator, amount);
            &&& out.result is Ok <==> {
                &&& amount.0 > 0
                &&& bond_in(records, operator) matches Ok(Some(bond)) && bond.bonded.0 + amount.0
                    <= u128::MAX
                &&& transferred(records, operator, staking_address(), "afri"@, amount) is Ok
            }
            &&& amount.0 == 0 ==> out.result == Err::<(), StakingFault>(StakingFault::ZeroAmount)
            &&& amount.0 > 0 && bond_in(records, operator) == Ok::<Option<BondView>, StakingFault>(
                None,
            ) ==> out.result == Err::<(), StakingFault>(StakingFault::NoSuchBond)
        }),
{
}

/// Adding stake changes how much is bonded and nothing else of the bond: a jailed
/// operator stays jailed since the same height, with the same key and country. The queue
/// and the candidates are as they were. Keys whose paths clash are left out.
pub proof fn law_adding_changes_the_amount_alone(
    records: Records,
    operator: Address,
    amount: Amount,
)
    requires
        paths_apart(operator),
        own_record(records, operator),
        adding(records, operator, amount).result is Ok,
    ensures
        ({
            let after = adding(records, operator, amount).records;
            let purse = balance_key(operator, "afri"@);
            &&& bond_in(records, operator) matches Ok(Some(bond))
            &&& bond_in(after, operator) matches Ok(Some(grown))
            &&& grown.bonded.0 == bond.bonded.0 + amount.0
            &&& grown == (BondView { bonded: grown.bonded, ..bond })
            &&& queue_in(after, operator) == queue_in(records, operator)
            &&& candidates_in(after) == candidates_in(records)
            &&& vault(after)->Ok_0.0 == vault(records)->Ok_0.0 + amount.0
            &&& amount_at(after, purse)->Ok_0.0 == amount_at(records, purse)->Ok_0.0 - amount.0
            &&& amount_at(after, supply_key("afri"@)) == amount_at(records, supply_key("afri"@))
        }),
{
    let paid = transferred(records, operator, staking_address(), "afri"@, amount)->Ok_0;
    law_transfers_conserve(
        records,
        operator,
        staking_address(),
        "afri"@,
        amount,
        supply_key("afri"@),
    );
    lemma_bond_read_is_valid(records, operator);
    let bond = bond_in(records, operator)->Ok_0->0;
    let grown = BondView { bonded: Amount((bond.bonded.0 + amount.0) as u128), ..bond };
    lemma_bond_written(paid, grown);
    let after = with_bond(paid, grown);
    assert(queue_in(after, operator) == queue_in(records, operator));
    assert(candidates_in(after) == candidates_in(records));
}

/// Unbonding comes off exactly where the amount is not zero and no more than is bonded,
/// and the queue has room. A refusal leaves everything as it was.
pub proof fn law_when_unbonding_comes_off(
    records: Records,
    params: StakingParams,
    operator: Address,
    amount: Amount,
    height: Height,
    now: Timestamp,
)
    ensures
        ({
            let out = unbonding(records, params, operator, amount, height, now);
            &&& out.result is Ok <==> {
                &&& amount.0 > 0
                &&& bond_in(records, operator) matches Ok(Some(bond)) && amount.0 <= bond.bonded.0
                &&& queue_in(records, operator) matches Ok(queue) && queue.len()
                    < params.max_unbonding_entries
            }
            &&& out.result is Err ==> out.records == records
            &&& amount.0 == 0 ==> out.result == Err::<(), StakingFault>(StakingFault::ZeroAmount)
            &&& amount.0 > 0 && bond_in(records, operator) == Ok::<Option<BondView>, StakingFault>(
                None,
            ) ==> out.result == Err::<(), StakingFault>(StakingFault::NoSuchBond)
            &&& bond_in(records, operator) matches Ok(Some(bond)) ==> (amount.0 > bond.bonded.0
                ==> (out.result matches Err(f) && f is InsufficientBond))
        }),
{
}

/// Unbonding takes the amount off the bond, and nothing else of it changes; one entry for
/// that amount joins the end of the queue, from this height, to be released when the
/// period is over. No money moves and the candidates stay. A queue longer than can be
/// stored, and keys whose paths clash, are left out.
pub proof fn law_unbonding_queues_the_amount(
    records: Records,
    params: StakingParams,
    operator: Address,
    amount: Amount,
    height: Height,
    now: Timestamp,
)
    requires
        paths_apart(operator),
        own_record(records, operator),
        params.max_unbonding_entries <= MAX_FIELD_LEN,
        unbonding(records, params, operator, amount, height, now).result is Ok,
    ensures
        ({
            let after = unbonding(records, params, operator, amount, height, now).records;
            let purse = balance_key(operator, "afri"@);
            &&& bond_in(records, operator) matches Ok(Some(bond))
            &&& queue_in(records, operator) matches Ok(queue)
            &&& bond_in(after, operator) matches Ok(Some(smaller))
            &&& queue_in(after, operator) matches Ok(longer)
            &&& smaller.bonded.0 == bond.bonded.0 - amount.0
            &&& smaller == (BondView { bonded: smaller.bonded, ..bond })
            &&& longer.len() == queue.len() + 1
            &&& longer.drop_last() == queue
            &&& longer.last().amount == amount
            &&& longer.last().started_at == height
            &&& now.0 + params.unbonding_ms <= u64::MAX ==> longer.last().completes_at.0 == now.0
                + params.unbonding_ms
            &&& now.0 + params.unbonding_ms > u64::MAX ==> longer.last().completes_at.0 == u64::MAX
            &&& candidates_in(after) == candidates_in(records)
            &&& vault(after) == vault(records)
            &&& amount_at(after, purse) == amount_at(records, purse)
            &&& amount_at(after, supply_key("afri"@)) == amount_at(records, supply_key("afri"@))
        }),
{
    lemma_bond_read_is_valid(records, operator);
    let bond = bond_in(records, operator)->Ok_0->0;
    let queue = queue_in(records, operator)->Ok_0;
    let smaller = BondView { bonded: Amount((bond.bonded.0 - amount.0) as u128), ..bond };
    let entry = Unbonding {
        amount,
        started_at: height,
        completes_at: crate::staking::release_time(now, params),
    };
    lemma_bond_written(records, smaller);
    lemma_queue_written(with_bond(records, smaller), operator, queue.push(entry));
    let after = with_queue(with_bond(records, smaller), operator, queue.push(entry));
    assert(queue.push(entry).drop_last() =~= queue);
    assert(bond_in(after, operator) == bond_in(with_bond(records, smaller), operator));
    assert(candidates_in(after) == candidates_in(records));
}

proof fn lemma_entries_due_filter(queue: Seq<Unbonding>, now: Timestamp)
    ensures
        entries_due(queue, now, true) == queue.filter(|e: Unbonding| e.completes_at.0 <= now.0),
        entries_due(queue, now, false) == queue.filter(|e: Unbonding| e.completes_at.0 > now.0),
    decreases queue.len(),
{
    reveal(Seq::filter);
    if queue.len() > 0 {
        lemma_entries_due_filter(queue.drop_last(), now);
    } else {
        assert(queue =~= Seq::empty());
    }
}

/// A withdrawal comes off exactly where some entry is due and the module account can pay
/// what is due to somebody who can take it. Keys whose paths clash are left out.
pub proof fn law_when_a_withdrawal_comes_off(records: Records, operator: Address, now: Timestamp)
    requires
        paths_apart(operator),
        queue_in(records, operator) is Ok,
    ensures
        ({
            let out = withdrawal(records, operator, now);
            let due = queue_in(records, operator)->Ok_0.filter(
                |e: Unbonding| e.completes_at.0 <= now.0,
            );
            let sum = due.fold_left(0int, |t: int, e: Unbonding| t + e.amount.0);
            &&& due.len() == 0 ==> out.records == records && out.result == Err::<
                Amount,
                StakingFault,
            >(StakingFault::NothingMatured)
            &&& due.len() > 0 ==> (out.result is Ok <==> sum == 0 || {
                &&& vault(records) matches Ok(v) && v.0 >= sum
                &&& operator != staking_address() ==> (amount_at(
                    records,
                    balance_key(operator, "afri"@),
                ) matches Ok(p) && p.0 + sum <= u128::MAX)
            })
        }),
{
    let queue = queue_in(records, operator)->Ok_0;
    lemma_entries_due_filter(queue, now);
    law_what_is_queued_is_the_sum(entries_due(queue, now, true));
    let written = with_queue(records, operator, entries_due(queue, now, false));
    assert(vault(written) == vault(records));
    assert(amount_at(written, balance_key(operator, "afri"@)) == amount_at(
        records,
        balance_key(operator, "afri"@),
    ));
}

/// A withdrawal pays the operator the sum of the entries that are due, out of the module
/// account, and keeps exactly the others, in their order; the bond, the candidates and
/// the supply stay. Keys whose paths clash are left out.
pub proof fn law_a_withdrawal_pays_the_due_entries(
    records: Records,
    operator: Address,
    now: Timestamp,
)
    requires
        paths_apart(operator),
        withdrawal(records, operator, now).result is Ok,
    ensures
        ({
            let after = withdrawal(records, operator, now).records;
            let released = withdrawal(records, operator, now).result->Ok_0.0;
            let purse = balance_key(operator, "afri"@);
            &&& queue_in(records, operator) matches Ok(queue)
            &&& released == queue.filter(|e: Unbonding| e.completes_at.0 <= now.0).fold_left(
                0int,
                |t: int, e: Unbonding| t + e.amount.0,
            )
            &&& queue_in(after, operator) == Ok::<Seq<Unbonding>, StakingFault>(
                queue.filter(|e: Unbonding| e.completes_at.0 > now.0),
            )
            &&& bond_in(after, operator) == bond_in(records, operator)
            &&& candidates_in(after) == candidates_in(records)
            &&& released > 0 ==> vault(after)->Ok_0.0 == vault(records)->Ok_0.0 - released
            &&& released > 0 ==> amount_at(after, purse)->Ok_0.0 == amount_at(
                records,
                purse,
            )->Ok_0.0 + released
            &&& amount_at(after, supply_key("afri"@)) == amount_at(records, supply_key("afri"@))
        }),
{
    let queue = queue_in(records, operator)->Ok_0;
    lemma_entries_due_filter(queue, now);
    law_what_is_queued_is_the_sum(entries_due(queue, now, true));
    let pending = entries_due(queue, now, false);
    let released = queued(entries_due(queue, now, true));
    let written = with_queue(records, operator, pending);
    lemma_queue_read_is_short(records, operator);
    crate::staking::laws::lemma_due_and_pending(queue, now);
    lemma_queue_written(records, operator, pending);
    assert(bond_in(written, operator) == bond_in(records, operator));
    assert(candidates_in(written) == candidates_in(records));
    assert(vault(written) == vault(records));
    let purse = balance_key(operator, "afri"@);
    assert(amount_at(written, purse) == amount_at(records, purse));
    let supply = supply_key("afri"@);
    assert(amount_at(written, supply) == amount_at(records, supply));
    if released != 0 {
        law_transfers_conserve(
            written,
            staking_address(),
            operator,
            "afri"@,
            Amount(released as u128),
            supply,
        );
        let after = transferred(
            written,
            staking_address(),
            operator,
            "afri"@,
            Amount(released as u128),
        )->Ok_0;
        assert(bond_in(after, operator) == bond_in(written, operator));
        assert(queue_in(after, operator) == queue_in(written, operator));
        assert(candidates_in(after) == candidates_in(written));
    }
}

/// Release comes off exactly where there is a bond, jailed or not.
pub proof fn law_when_a_release_comes_off(records: Records, operator: Address)
    ensures
        unjailing(records, operator).result is Ok <==> (bond_in(records, operator) matches Ok(
            Some(_),
        )),
        unjailing(records, operator).result is Err ==> unjailing(records, operator).records
            == records,
        bond_in(records, operator) == Ok::<Option<BondView>, StakingFault>(None) ==> unjailing(
            records,
            operator,
        ).result == Err::<(), StakingFault>(StakingFault::NoSuchBond),
{
}

/// The bonds that are listed are those of the operators that have one, in the operators'
/// order: none is left out and none is made up.
pub proof fn law_every_bond_is_listed(records: Records, operators: Seq<Address>)
    requires
        forall|i: int|
            0 <= i < operators.len() ==> bond_in(records, #[trigger] operators[i]) is Ok,
    ensures
        bonds_of(records, operators) == Ok::<Seq<BondView>, StakingFault>(
            operators.filter_map(|o: Address| bond_in(records, o)->Ok_0),
        ),
    decreases operators.len(),
{
    if operators.len() > 0 {
        let rest = operators.drop_last();
        assert forall|i: int| 0 <= i < rest.len() implies bond_in(
            records,
            #[trigger] rest[i],
        ) is Ok by {
            assert(rest[i] == operators[i]);
        }
        law_every_bond_is_listed(records, rest);
        assert(bond_in(records, operators[operators.len() - 1]) is Ok);
        let f = |o: Address| bond_in(records, o)->Ok_0;
        if bond_in(records, operators.last())->Ok_0 is Some {
            let b = bond_in(records, operators.last())->Ok_0->0;
            assert(rest.filter_map(f) + seq![b] =~= rest.filter_map(f).push(b));
        }
    }
}

/// The module account is the one that the name `staking` derives.
pub proof fn law_the_module_account_is_named_staking()
    ensures
        staking_address() == address_in(Domain::ModuleAddress, encode_utf8("staking"@)),
{
    reveal_strlit("staking");
    vstd::utf8::is_ascii_chars_encode_utf8("staking"@);
    assert(encode_utf8("staking"@) =~= seq![115u8, 116, 97, 107, 105, 110, 103]);
}

} // verus!
