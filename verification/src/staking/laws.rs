//! What every staking operation keeps.

use crate::bank::{
    amount_at, destroyed, law_transfers_conserve, lemma_amount_reads_back,
    lemma_other_amounts_stay, transferred, with_amount, BankFault,
};
use crate::consensus::{validator_at, EquivocationView, ValidatorView};
use crate::crypto::address::Address;
use crate::crypto::hash::Hash32;
use crate::crypto::keys::PublicKey;
use crate::primitives::amount::Amount;
use crate::primitives::codec::{
    law_decode_exact_accepts_only_encodings, law_decode_exact_inverts_encode, Canonical, Encode,
    MAX_FIELD_LEN,
};
use crate::primitives::country::CountryCode;
use crate::primitives::ids::{Height, Timestamp};
use crate::staking::bond::{Bond, BondView, Unbonding};
use crate::staking::error::StakingFault;
use crate::staking::index::{in_order, law_filing_ignores_arrival, law_filing_sorts};
use crate::staking::params::StakingParams;
use crate::staking::set::eligible;
use crate::staking::{
    adding, bond_in, bonding, candidates_in, entries_due, equivocates, left_of_all, queue_in,
    queued, release_time, slashing, slice_of, staking_address, taken_from, taken_from_all,
    unbonding, unjailing, with_bond, with_candidates, with_queue, withdrawal, Records,
};
use crate::state::shape::path;
use crate::state::store::{
    balance_key, bond_index_key, bond_key, supply_key, unbonding_key,
};
use vstd::prelude::*;

verus! {

/// Whether no two of the keys that staking uses for an operator have the same path.
pub open spec fn paths_apart(operator: Address) -> bool {
    let bond = path(bond_key(operator));
    let queue = path(unbonding_key(operator));
    let list = path(bond_index_key());
    let purse = path(balance_key(operator, "afri"@));
    let vault = path(balance_key(staking_address(), "afri"@));
    let supply = path(supply_key("afri"@));
    &&& bond != queue && bond != list && bond != purse && bond != vault && bond != supply
    &&& queue != list && queue != purse && queue != vault && queue != supply
    &&& list != purse && list != vault && list != supply
    &&& purse != vault && purse != supply
    &&& vault != supply
}

/// What an operator has at stake: bonded, or on its way out.
pub open spec fn stake_of(records: Records, operator: Address) -> Option<nat> {
    match (bond_in(records, operator), queue_in(records, operator)) {
        (Ok(Some(b)), Ok(queue)) => Some(b.bonded.0 as nat + queued(queue)),
        (Ok(None), Ok(queue)) => Some(queued(queue)),
        _ => None,
    }
}

/// Whether an operator's bond, if there is one, is stored under the operator's own
/// name.
pub open spec fn own_record(records: Records, operator: Address) -> bool {
    bond_in(records, operator) matches Ok(Some(b)) ==> b.operator == operator
}

/// What the module account holds.
pub open spec fn vault(records: Records) -> Result<Amount, BankFault> {
    amount_at(records, balance_key(staking_address(), "afri"@))
}

pub(crate) proof fn lemma_bond_written(records: Records, bond: BondView)
    requires
        Bond::valid(bond),
    ensures
        bond_in(with_bond(records, bond), bond.operator) == Ok::<Option<BondView>, StakingFault>(
            Some(bond),
        ),
{
    law_decode_exact_inverts_encode::<Bond>(bond);
}

pub(crate) proof fn lemma_queue_written(records: Records, operator: Address, queue: Seq<Unbonding>)
    requires
        queue.len() <= MAX_FIELD_LEN,
    ensures
        queue_in(with_queue(records, operator, queue), operator) == Ok::<
            Seq<Unbonding>,
            StakingFault,
        >(queue),
{
    if queue.len() > 0 {
        assert forall|i: int| 0 <= i < queue.len() implies Unbonding::valid(
            #[trigger] queue[i]
        ) by {}
        law_decode_exact_inverts_encode::<Vec<Unbonding>>(queue);
    } else {
        assert(queue =~= Seq::empty());
    }
}

pub(crate) proof fn lemma_bond_read_is_valid(records: Records, operator: Address)
    ensures
        bond_in(records, operator) matches Ok(Some(b)) ==> Bond::valid(b),
{
    if bond_in(records, operator) is Ok && bond_in(records, operator)->Ok_0 is Some {
        law_decode_exact_accepts_only_encodings::<Bond>(records[path(bond_key(operator))]);
    }
}

pub(crate) proof fn lemma_queue_read_is_short(records: Records, operator: Address)
    ensures
        queue_in(records, operator) matches Ok(queue) ==> queue.len() <= MAX_FIELD_LEN,
{
    if records.dom().contains(path(unbonding_key(operator))) {
        law_decode_exact_accepts_only_encodings::<Vec<Unbonding>>(
            records[path(unbonding_key(operator))],
        );
    }
}

pub(crate) proof fn lemma_due_and_pending(queue: Seq<Unbonding>, now: Timestamp)
    ensures
        queued(entries_due(queue, now, true)) + queued(entries_due(queue, now, false)) == queued(
            queue,
        ),
        entries_due(queue, now, false).len() <= queue.len(),
        forall|i: int|
            0 <= i < entries_due(queue, now, false).len() ==> !(#[trigger] entries_due(
                queue,
                now,
                false,
            )[i]).is_due(now),
    decreases queue.len(),
{
    if queue.len() > 0 {
        let rest = queue.drop_last();
        lemma_due_and_pending(rest, now);
        let due = entries_due(rest, now, true);
        let pending = entries_due(rest, now, false);
        assert(due.push(queue.last()).drop_last() =~= due);
        assert(pending.push(queue.last()).drop_last() =~= pending);
    }
}

proof fn lemma_charged(queue: Seq<Unbonding>, infraction: Height)
    ensures
        queued(left_of_all(queue, infraction)) + taken_from_all(queue, infraction) == queued(queue),
    decreases queue.len(),
{
    if queue.len() > 0 {
        lemma_charged(queue.drop_last(), infraction);
        assert(left_of_all(queue, infraction).drop_last() =~= left_of_all(
            queue.drop_last(),
            infraction,
        ));
    }
}

/// Bonding takes the stake out of the operator's balance: what the operator has at
/// stake, and what the module account holds, grow by what the balance falls by. The
/// new bond is not jailed, and the operator joins the candidates. Keys whose paths
/// clash are left out.
pub proof fn law_bonding_moves_the_stake(
    records: Records,
    params: StakingParams,
    operator: Address,
    public_key: Seq<u8>,
    country: Seq<u8>,
    amount: Amount,
)
    requires
        paths_apart(operator),
        PublicKey::valid(public_key),
        CountryCode::valid(country),
        bonding(records, params, operator, public_key, country, amount).result is Ok,
        stake_of(records, operator) is Some,
    ensures
        ({
            let after = bonding(records, params, operator, public_key, country, amount).records;
            let purse = balance_key(operator, "afri"@);
            &&& stake_of(after, operator) == Some(stake_of(records, operator)->0 + amount.0 as nat)
            &&& vault(after) is Ok
            &&& vault(after)->Ok_0.0 == vault(records)->Ok_0.0 + amount.0
            &&& amount_at(after, purse) is Ok
            &&& amount_at(after, purse)->Ok_0.0 == amount_at(records, purse)->Ok_0.0 - amount.0
            &&& amount_at(after, supply_key("afri"@)) == amount_at(records, supply_key("afri"@))
            &&& bond_in(after, operator) matches Ok(Some(b)) && !b.jailed && b.bonded == amount
            &&& queue_in(after, operator) == queue_in(records, operator)
        }),
{
    let paid = transferred(records, operator, staking_address(), "afri"@, amount)->Ok_0;
    law_transfers_conserve(
        records,
        operator,
        staking_address(),
        "afri"@,
        amount,
        supply_key("afri"@),
    );
    let bond = BondView {
        operator,
        public_key,
        country,
        bonded: amount,
        jailed: false,
        jailed_at: None,
    };
    lemma_bond_written(paid, bond);
    let list = candidates_in(records)->Ok_0;
    let after = with_candidates(with_bond(paid, bond), in_order(list.push(operator)));
    assert(bond_in(after, operator) == bond_in(with_bond(paid, bond), operator));
    assert(queue_in(after, operator) == queue_in(records, operator));
}

/// The candidate index holds the same operators, in the same order, whichever of two
/// bonds arrived first.
pub proof fn law_candidates_ignore_arrival(list: Seq<Address>, a: Address, b: Address)
    ensures
        in_order(in_order(list.push(a)).push(b)) == in_order(in_order(list.push(b)).push(a)),
{
    broadcast use vstd::seq_lib::group_to_multiset_ensures;

    law_filing_sorts(list.push(a));
    law_filing_sorts(list.push(b));
    let x = in_order(list.push(a)).push(b);
    let y = in_order(list.push(b)).push(a);
    assert(x.to_multiset() =~= list.to_multiset().insert(a).insert(b));
    assert(y.to_multiset() =~= list.to_multiset().insert(b).insert(a));
    assert(x.to_multiset() =~= y.to_multiset());
    law_filing_ignores_arrival(x, y);
}

/// Adding stake moves it as bonding does. Keys whose paths clash are left out.
pub proof fn law_adding_moves_the_stake(records: Records, operator: Address, amount: Amount)
    requires
        paths_apart(operator),
        own_record(records, operator),
        adding(records, operator, amount).result is Ok,
        stake_of(records, operator) is Some,
    ensures
        ({
            let after = adding(records, operator, amount).records;
            &&& stake_of(after, operator) == Some(stake_of(records, operator)->0 + amount.0 as nat)
            &&& vault(after) is Ok
            &&& vault(after)->Ok_0.0 == vault(records)->Ok_0.0 + amount.0
            &&& own_record(after, operator)
        }),
{
    let paid = transferred(records, operator, staking_address(), "afri"@, amount)->Ok_0;
    law_transfers_conserve(
        records,
        operator,
        staking_address(),
        "afri"@,
        amount,
        supply_key("afri"@),
    );
    lemma_bond_read_is_valid(records, operator);
    let bond = bond_in(records, operator)->Ok_0->0;
    let grown = BondView { bonded: Amount((bond.bonded.0 + amount.0) as u128), ..bond };
    lemma_bond_written(paid, grown);
    let after = with_bond(paid, grown);
    assert(queue_in(after, operator) == queue_in(records, operator));
}

/// Unbonding moves no money: what leaves the bond joins the queue, the module account
/// keeps it, and it stays at stake. A queue longer than can be stored, and keys whose
/// paths clash, are left out.
pub proof fn law_unbonding_keeps_stake_slashable(
    records: Records,
    params: StakingParams,
    operator: Address,
    amount: Amount,
    height: Height,
    now: Timestamp,
)
    requires
        paths_apart(operator),
        own_record(records, operator),
        params.max_unbonding_entries <= MAX_FIELD_LEN,
        unbonding(records, params, operator, amount, height, now).result is Ok,
    ensures
        ({
            let after = unbonding(records, params, operator, amount, height, now).records;
            let queue = queue_in(records, operator)->Ok_0;
            &&& stake_of(records, operator) is Some
            &&& stake_of(after, operator) == stake_of(records, operator)
            &&& vault(after) == vault(records)
            &&& own_record(after, operator)
            &&& queue_in(after, operator) matches Ok(longer) && longer == queue.push(
                Unbonding {
                    amount,
                    started_at: height,
                    completes_at: release_time(now, params),
                },
            )
        }),
{
    lemma_bond_read_is_valid(records, operator);
    let bond = bond_in(records, operator)->Ok_0->0;
    let queue = queue_in(records, operator)->Ok_0;
    let smaller = BondView { bonded: Amount((bond.bonded.0 - amount.0) as u128), ..bond };
    let entry = Unbonding { amount, started_at: height, completes_at: release_time(now, params) };
    lemma_bond_written(records, smaller);
    lemma_queue_written(with_bond(records, smaller), operator, queue.push(entry));
    let after = with_queue(with_bond(records, smaller), operator, queue.push(entry));
    assert(queue.push(entry).drop_last() =~= queue);
    assert(bond_in(after, operator) == bond_in(with_bond(records, smaller), operator));
}

/// Stake is not released before the unbonding period has elapsed: an entry queued at
/// one time is not due at another before the period is over, and from then on it is.
/// A period that ends past the last expressible time is left out.
pub proof fn law_release_takes_the_whole_period(
    queue: Seq<Unbonding>,
    entry: Unbonding,
    params: StakingParams,
    now: Timestamp,
    later: Timestamp,
)
    requires
        entry.completes_at == release_time(now, params),
        now.0 + params.unbonding_ms <= u64::MAX,
    ensures
        entry.is_due(later) <==> later.0 >= now.0 + params.unbonding_ms,
        later.0 < now.0 + params.unbonding_ms ==> entries_due(queue.push(entry), later, true)
            == entries_due(queue, later, true),
{
    assert(queue.push(entry).drop_last() =~= queue);
}

/// A withdrawal pays out of the module account exactly what leaves the queue, and
/// leaves only entries that are not due. Keys whose paths clash are left out.
pub proof fn law_withdrawals_pay_what_matured(records: Records, operator: Address, now: Timestamp)
    requires
        paths_apart(operator),
        withdrawal(records, operator, now).result is Ok,
        stake_of(records, operator) is Some,
        vault(records) is Ok,
    ensures
        ({
            let after = withdrawal(records, operator, now).records;
            let released = withdrawal(records, operator, now).result->Ok_0;
            &&& stake_of(after, operator) is Some
            &&& stake_of(after, operator)->0 == stake_of(records, operator)->0 - released.0
            &&& vault(after) is Ok
            &&& vault(after)->Ok_0.0 == vault(records)->Ok_0.0 - released.0
            &&& bond_in(after, operator) == bond_in(records, operator)
            &&& queue_in(after, operator) matches Ok(queue) && forall|i: int|
                0 <= i < queue.len() ==> !(#[trigger] queue[i]).is_due(now)
        }),
{
    let queue = queue_in(records, operator)->Ok_0;
    let pending = entries_due(queue, now, false);
    let released = queued(entries_due(queue, now, true));
    let written = with_queue(records, operator, pending);
    lemma_due_and_pending(queue, now);
    lemma_queue_read_is_short(records, operator);
    lemma_queue_written(records, operator, pending);
    assert(bond_in(written, operator) == bond_in(records, operator));
    assert(vault(written) == vault(records));
    if released != 0 {
        law_transfers_conserve(
            written,
            staking_address(),
            operator,
            "afri"@,
            Amount(released as u128),
            supply_key("afri"@),
        );
        let after = transferred(
            written,
            staking_address(),
            operator,
            "afri"@,
            Amount(released as u128),
        )->Ok_0;
        assert(bond_in(after, operator) == bond_in(written, operator));
        assert(queue_in(after, operator) == queue_in(written, operator));
    }
}

/// Slashed stake is destroyed, not paid to anyone: what the operator has at stake,
/// what the module account holds, and the supply all fall by what was burned. The
/// operator is jailed, so holds no seat whatever the minimum bond is, and cannot be
/// slashed again. Keys whose paths clash are left out.
pub proof fn law_slashing_burns_and_jails(
    records: Records,
    operator: Address,
    infraction: Height,
    now: Height,
    again: Height,
    min_bond: Amount,
)
    requires
        paths_apart(operator),
        own_record(records, operator),
        slashing(records, operator, infraction, now).result is Ok,
        vault(records) is Ok,
        amount_at(records, supply_key("afri"@)) is Ok,
    ensures
        ({
            let after = slashing(records, operator, infraction, now).records;
            let burned = slashing(records, operator, infraction, now).result->Ok_0;
            let supply = supply_key("afri"@);
            &&& stake_of(records, operator) is Some
            &&& stake_of(after, operator) is Some
            &&& stake_of(after, operator)->0 == stake_of(records, operator)->0 - burned.0
            &&& vault(after) is Ok
            &&& vault(after)->Ok_0.0 == vault(records)->Ok_0.0 - burned.0
            &&& amount_at(after, supply) is Ok
            &&& amount_at(after, supply)->Ok_0.0 == amount_at(records, supply)->Ok_0.0 - burned.0
            &&& bond_in(after, operator) matches Ok(Some(b)) && b.jailed && b.jailed_at == Some(now)
                && !eligible(b, min_bond)
            &&& slashing(after, operator, infraction, again).result == Err::<Amount, StakingFault>(
                StakingFault::AlreadyJailed,
            )
            &&& own_record(after, operator)
        }),
{
    lemma_bond_read_is_valid(records, operator);
    lemma_queue_read_is_short(records, operator);
    let bond = bond_in(records, operator)->Ok_0->0;
    let queue = queue_in(records, operator)->Ok_0;
    let cut = BondView {
        bonded: Amount((bond.bonded.0 - slice_of(bond.bonded).0) as u128),
        jailed: true,
        jailed_at: Some(now),
        ..bond
    };
    let left = left_of_all(queue, infraction);
    lemma_charged(queue, infraction);
    lemma_bond_written(records, cut);
    let middle = with_bond(records, cut);
    let written = with_queue(middle, operator, left);
    lemma_queue_written(middle, operator, left);
    assert(bond_in(written, operator) == bond_in(middle, operator));
    let burned = slice_of(bond.bonded).0 + taken_from_all(queue, infraction);
    let (held, supply) = (balance_key(staking_address(), "afri"@), supply_key("afri"@));
    assert(vault(written) == vault(records));
    assert(amount_at(written, supply) == amount_at(records, supply));
    if burned != 0 {
        let a = vault(written)->Ok_0;
        let t = amount_at(written, supply)->Ok_0;
        let paid = with_amount(written, held, a.0 - burned);
        let after = with_amount(paid, supply, t.0 - burned);
        assert(destroyed(written, staking_address(), "afri"@, Amount(burned as u128)) == Ok::<
            Records,
            BankFault,
        >(after));
        lemma_amount_reads_back(written, held, a.0 - burned);
        lemma_other_amounts_stay(paid, supply, t.0 - burned, held);
        lemma_amount_reads_back(paid, supply, t.0 - burned);
        assert(bond_in(after, operator) == bond_in(written, operator));
        assert(queue_in(after, operator) == queue_in(written, operator));
    }
}

/// An infraction reaches stake that was still bonded then, though it has begun to
/// leave since, and does not reach stake that had left before.
pub proof fn law_slashing_reaches_stake_on_its_way_out(
    queue: Seq<Unbonding>,
    infraction: Height,
    i: int,
)
    requires
        0 <= i < queue.len(),
    ensures
        left_of_all(queue, infraction).len() == queue.len(),
        queue[i].started_at.0 > infraction.0 ==> left_of_all(queue, infraction)[i].amount.0
            == queue[i].amount.0 - slice_of(queue[i].amount).0,
        queue[i].started_at.0 <= infraction.0 ==> left_of_all(queue, infraction)[i] == queue[i],
        taken_from_all(queue, infraction) >= taken_from(queue[i], infraction).0,
    decreases queue.len(),
{
    if i < queue.len() - 1 {
        law_slashing_reaches_stake_on_its_way_out(queue.drop_last(), infraction, i);
    }
}

/// Whoever is released from jail has the stake and the seat rights that the bond
/// gives, as before. Keys whose paths clash are left out.
pub proof fn law_release_restores(records: Records, operator: Address)
    requires
        paths_apart(operator),
        own_record(records, operator),
        unjailing(records, operator).result is Ok,
    ensures
        ({
            let after = unjailing(records, operator).records;
            let bond = bond_in(records, operator)->Ok_0->0;
            &&& bond_in(after, operator) matches Ok(Some(b)) && b == (BondView {
                jailed: false,
                jailed_at: None,
                ..bond
            })
            &&& queue_in(after, operator) == queue_in(records, operator)
            &&& vault(after) == vault(records)
        }),
{
    lemma_bond_read_is_valid(records, operator);
    let bond = bond_in(records, operator)->Ok_0->0;
    lemma_bond_written(records, BondView { jailed: false, jailed_at: None, ..bond });
}

/// The paths that an operation on an operator's stake may write to: the operator's bond,
/// queue and balance, the module account, the supply, and the candidate index.
pub open spec fn reach_of(operator: Address) -> Set<Hash32> {
    set![
        path(bond_key(operator)),
        path(unbonding_key(operator)),
        path(bond_index_key()),
        path(balance_key(operator, "afri"@)),
        path(balance_key(staking_address(), "afri"@)),
        path(supply_key("afri"@)),
    ]
}

/// Whether two sets of records agree on every path outside a reach.
pub open spec fn agree_outside(a: Records, b: Records, reach: Set<Hash32>) -> bool {
    forall|p: Hash32|
        #![trigger a.dom().contains(p)]
        #![trigger b.dom().contains(p)]
        !reach.contains(p) ==> (a.dom().contains(p) <==> b.dom().contains(p)) && (a.dom().contains(
            p,
        ) ==> a[p] == b[p])
}

/// Whatever is asked of an operator's stake, and whether or not it succeeds, nothing is
/// written but the operator's own records, the module account, the supply and the
/// candidate index.
pub proof fn law_operations_stay_within_reach(
    records: Records,
    params: StakingParams,
    operator: Address,
    public_key: Seq<u8>,
    country: Seq<u8>,
    amount: Amount,
    infraction: Height,
    height: Height,
    now: Timestamp,
)
    requires
        own_record(records, operator),
    ensures
        ({
            let reach = reach_of(operator);
            &&& agree_outside(
                records,
                bonding(records, params, operator, public_key, country, amount).records,
                reach,
            )
            &&& agree_outside(records, adding(records, operator, amount).records, reach)
            &&& agree_outside(
                records,
                unbonding(records, params, operator, amount, height, now).records,
                reach,
            )
            &&& agree_outside(records, withdrawal(records, operator, now).records, reach)
            &&& agree_outside(
                records,
                slashing(records, operator, infraction, height).records,
                reach,
            )
            &&& agree_outside(records, unjailing(records, operator).records, reach)
        }),
{
}

/// One operator's stake is no business of another's: what stays within the reach of one
/// operator leaves the bond, the queue and the stake of every other as they were.
/// Operators whose records share a path are left out.
pub proof fn law_other_stakes_stay(
    before: Records,
    after: Records,
    operator: Address,
    other: Address,
)
    requires
        agree_outside(before, after, reach_of(operator)),
        !reach_of(operator).contains(path(bond_key(other))),
        !reach_of(operator).contains(path(unbonding_key(other))),
    ensures
        bond_in(after, other) == bond_in(before, other),
        queue_in(after, other) == queue_in(before, other),
        stake_of(after, other) == stake_of(before, other),
{
    assert(before.dom().contains(path(bond_key(other))) == after.dom().contains(
        path(bond_key(other)),
    ));
    assert(before.dom().contains(path(unbonding_key(other))) == after.dom().contains(
        path(unbonding_key(other)),
    ));
}

/// Ordinary votes are no evidence: not two votes at different heights or rounds, not a
/// prevote and a precommit, not two votes for one block, and nothing against somebody who
/// is not a validator.
pub proof fn law_ordinary_votes_are_no_evidence(
    evidence: EquivocationView,
    set: Seq<ValidatorView>,
)
    requires
        evidence.first.vote.height != evidence.second.vote.height || evidence.first.vote.round
            != evidence.second.vote.round || evidence.first.vote.vote_type
            != evidence.second.vote.vote_type || evidence.first.vote.block_id
            == evidence.second.vote.block_id || validator_at(set, evidence.validator) is None,
    ensures
        !equivocates(evidence, set),
{
}

} // verus!
