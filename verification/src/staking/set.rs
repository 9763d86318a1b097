//! Turning bonds into the active validator set.

use crate::consensus::{power_sum, set_complaint, Validator, ValidatorSet, ValidatorView};
use crate::crypto::address::key_address;
use crate::primitives::amount::{Amount, SENTE_PER_AFRI};
use crate::primitives::codec::Encode;
use crate::primitives::order::{
    bytes_less, lemma_lex_irreflexive, lemma_lex_total, lemma_lex_transitive, lex_less,
};
use crate::staking::bond::{Bond, BondView};
use crate::staking::error::StakingError;
use crate::staking::params::StakingParams;
use vstd::prelude::*;

verus! {

/// Voting power for a stake: one unit per whole AFRI, as far as a `u64` goes.
pub open spec fn power(bonded: Amount) -> u64 {
    if bonded.0 / SENTE_PER_AFRI > u64::MAX {
        u64::MAX
    } else {
        (bonded.0 / SENTE_PER_AFRI) as u64
    }
}

/// Voting power for a bond: one unit per whole AFRI. Sub-AFRI dust buys none.
pub fn power_of(bonded: Amount) -> (p: u64)
    ensures
        p == power(bonded),
{
    let whole: u128 = bonded.0 / SENTE_PER_AFRI;
    if whole > u64::MAX as u128 {
        u64::MAX
    } else {
        whole as u64
    }
}

/// Whether a bond may hold a seat.
pub open spec fn eligible(b: BondView, min_bond: Amount) -> bool {
    !b.jailed && b.bonded.0 >= min_bond.0
}

/// Whether one bond goes before another: by power, and among equals by address, so
/// that every node orders equal stakes alike.
pub open spec fn ranks_before(a: BondView, b: BondView) -> bool {
    ||| power(a.bonded) > power(b.bonded)
    ||| power(a.bonded) == power(b.bonded) && lex_less(a.operator.0@, b.operator.0@)
}

/// A ranking with one more bond, after those that it does not rank before.
pub open spec fn placed(list: Seq<BondView>, b: BondView) -> Seq<BondView>
    decreases list.len(),
{
    if list.len() > 0 && ranks_before(b, list.last()) {
        placed(list.drop_last(), b).push(list.last())
    } else {
        list.push(b)
    }
}

/// The bonds that may hold a seat, in order of rank.
pub open spec fn ranking(bonds: Seq<BondView>, min_bond: Amount) -> Seq<BondView>
    decreases bonds.len(),
{
    if bonds.len() == 0 {
        Seq::empty()
    } else {
        let rest = ranking(bonds.drop_last(), min_bond);
        if eligible(bonds.last(), min_bond) {
            placed(rest, bonds.last())
        } else {
            rest
        }
    }
}

/// The bonds that hold a seat.
pub open spec fn seats(bonds: Seq<BondView>, params: StakingParams) -> Seq<BondView> {
    let ranked = ranking(bonds, params.min_bond);
    if ranked.len() > params.max_validators {
        ranked.take(params.max_validators as int)
    } else {
        ranked
    }
}

/// The power that each seat starts with: at least one.
pub open spec fn seat_powers(seated: Seq<BondView>) -> Seq<u64> {
    Seq::new(
        seated.len(),
        |i: int|
            if power(seated[i].bonded) < 1 {
                1u64
            } else {
                power(seated[i].bonded)
            },
    )
}

/// All powers together.
pub open spec fn total(powers: Seq<u64>) -> nat
    decreases powers.len(),
{
    if powers.len() == 0 {
        0
    } else {
        total(powers.drop_last()) + powers.last() as nat
    }
}

/// The most that one seat may hold of these powers: its share of the total, rounded
/// down, but at least one.
pub open spec fn ceiling(powers: Seq<u64>, max_bps: u32) -> u64 {
    let share = total(powers) * max_bps as nat / 10_000;
    if share > u64::MAX {
        u64::MAX
    } else if share < 1 {
        1
    } else {
        share as u64
    }
}

/// The powers with none above a limit.
pub open spec fn held_to(powers: Seq<u64>, limit: u64) -> Seq<u64> {
    Seq::new(
        powers.len(),
        |i: int|
            if powers[i] > limit {
                limit
            } else {
                powers[i]
            },
    )
}

/// The powers with every share above the ceiling discarded. Discarding lowers the
/// total, and with it the ceiling, so this goes on until nothing is left to discard.
pub open spec fn capped(powers: Seq<u64>, max_bps: u32) -> Seq<u64>
    decreases total(powers),
{
    if max_bps == 0 || max_bps >= 10_000 {
        powers
    } else {
        let next = held_to(powers, ceiling(powers, max_bps));
        if next == powers {
            powers
        } else {
            proof {
                lemma_holding_lowers(powers, ceiling(powers, max_bps));
            }
            capped(next, max_bps)
        }
    }
}

/// The validators of seats with given powers.
pub open spec fn seated_validators(seated: Seq<BondView>, powers: Seq<u64>) -> Seq<ValidatorView> {
    Seq::new(
        seated.len(),
        |i: int|
            ValidatorView {
                public_key: seated[i].public_key,
                voting_power: powers[i],
                country: seated[i].country,
            },
    )
}

/// The validators that the bonds seat.
pub open spec fn seated_set(bonds: Seq<BondView>, params: StakingParams) -> Seq<ValidatorView> {
    let seated = seats(bonds, params);
    seated_validators(seated, capped(seat_powers(seated), params.max_single_share_bps))
}

/// Holding powers to a limit lowers their total, unless it changes nothing.
pub proof fn lemma_holding_lowers(powers: Seq<u64>, limit: u64)
    ensures
        total(held_to(powers, limit)) <= total(powers),
        held_to(powers, limit) != powers ==> total(held_to(powers, limit)) < total(powers),
    decreases powers.len(),
{
    let next = held_to(powers, limit);
    if powers.len() > 0 {
        lemma_holding_lowers(powers.drop_last(), limit);
        assert(next.drop_last() =~= held_to(powers.drop_last(), limit));
        if next != powers && next.drop_last() == powers.drop_last() {
            assert(next.last() != powers.last()) by {
                if next.last() == powers.last() {
                    assert(next =~= next.drop_last().push(next.last()));
                    assert(powers =~= powers.drop_last().push(powers.last()));
                }
            }
        }
    } else {
        assert(next =~= powers);
    }
}

// ---------------------------------------------------------------------------
// Ranking
// ---------------------------------------------------------------------------

fn before(a: &Bond, b: &Bond) -> (r: bool)
    ensures
        r == ranks_before(a.deep_view(), b.deep_view()),
{
    let (x, y): (u64, u64) = (power_of(a.bonded), power_of(b.bonded));
    x > y || (x == y && bytes_less(a.operator.0.as_slice(), b.operator.0.as_slice()))
}

proof fn lemma_placed(list: Seq<BondView>, b: BondView, j: int)
    requires
        0 <= j <= list.len(),
        forall|k: int| j <= k < list.len() ==> ranks_before(b, #[trigger] list[k]),
        j > 0 ==> !ranks_before(b, list[j - 1]),
    ensures
        placed(list, b) == list.insert(j, b),
    decreases list.len(),
{
    if j == list.len() {
        assert(list.insert(j, b) =~= list.push(b));
    } else {
        assert(ranks_before(b, list[list.len() - 1]));
        lemma_placed(list.drop_last(), b, j);
        assert(list.insert(j, b) =~= list.drop_last().insert(j, b).push(list.last()));
    }
}

/// The bonds that may hold a seat, in order of rank.
fn rank<'a>(bonds: &'a [Bond], min_bond: Amount) -> (out: Vec<&'a Bond>)
    ensures
        out.deep_view() == ranking(bonds.deep_view(), min_bond),
{
    let mut out: Vec<&'a Bond> = Vec::new();
    let ghost all = bonds.deep_view();
    let mut i: usize = 0;
    assert(out.deep_view() =~= Seq::empty());
    while i < bonds.len()
        invariant
            i <= bonds@.len(),
            all == bonds.deep_view(),
            out.deep_view() == ranking(all.take(i as int), min_bond),
        decreases bonds@.len() - i,
    {
        let b: &'a Bond = &bonds[i];
        let ghost prefix = all.take(i as int + 1);
        assert(prefix.drop_last() =~= all.take(i as int));
        assert(prefix.last() == b.deep_view());
        if !b.jailed && b.bonded.0 >= min_bond.0 {
            let ghost list = out.deep_view();
            let mut j: usize = out.len();
            while j > 0 && before(b, out[j - 1])
                invariant
                    j <= out@.len(),
                    list == out.deep_view(),
                    list.len() == out@.len(),
                    forall|k: int|
                        j <= k < list.len() ==> ranks_before(b.deep_view(), #[trigger] list[k]),
                ensures
                    j > 0 ==> !ranks_before(b.deep_view(), list[j - 1]),
                decreases j,
            {
                assert(list[j - 1] == out@[j - 1].deep_view());
                j -= 1;
            }
            proof {
                lemma_placed(list, b.deep_view(), j as int);
            }
            out.insert(j, b);
            assert(out.deep_view() =~= list.insert(j as int, b.deep_view()));
        }
        i += 1;
    }
    assert(all.take(all.len() as int) =~= all);
    out
}

// ---------------------------------------------------------------------------
// Concentration
// ---------------------------------------------------------------------------

fn sum(powers: &Vec<u64>) -> (t: u128)
    ensures
        t == total(powers@),
{
    let mut t: u128 = 0;
    let mut i: usize = 0;
    while i < powers.len()
        invariant
            i <= powers@.len(),
            t == total(powers@.take(i as int)),
            t <= i * 0xffff_ffff_ffff_ffff,
        decreases powers@.len() - i,
    {
        assert(powers@.take(i as int + 1).drop_last() =~= powers@.take(i as int));
        assert(i * 0xffff_ffff_ffff_ffff <= 0xffff_ffff_ffff_ffff * 0xffff_ffff_ffff_ffff) by (
            nonlinear_arith
        )
            requires
                i <= 0xffff_ffff_ffff_ffff,
        ;
        t = t + powers[i] as u128;
        i += 1;
    }
    assert(powers@.take(powers@.len() as int) =~= powers@);
    t
}

fn share(powers: &Vec<u64>, max_bps: u32) -> (c: u64)
    ensures
        c == ceiling(powers@, max_bps),
{
    let t: u128 = sum(powers);
    match t.checked_mul(max_bps as u128) {
        Some(n) => {
            let whole: u128 = n / 10_000;
            if whole > u64::MAX as u128 {
                u64::MAX
            } else if whole < 1 {
                1
            } else {
                whole as u64
            }
        },
        None => u64::MAX,
    }
}

/// Reduce any share above `max_bps` of the total, repeatedly, until none is.
pub fn cap_concentration(powers: &mut Vec<u64>, max_bps: u32)
    ensures
        final(powers)@ == capped(old(powers)@, max_bps),
        capped(final(powers)@, max_bps) == final(powers)@,
        0 < max_bps < 10_000 ==> forall|i: int|
            0 <= i < final(powers)@.len() ==> #[trigger] final(powers)@[i] <= 1 || final(powers)@[i]
                <= total(final(powers)@) * max_bps as nat / 10_000,
{
    proof {
        law_capping_is_a_fixed_point(powers@, max_bps);
    }
    if max_bps == 0 || max_bps >= 10_000 {
        return;
    }
    let ghost start = powers@;
    let mut changed = true;
    while changed
        invariant
            0 < max_bps < 10_000,
            changed ==> capped(powers@, max_bps) == capped(start, max_bps),
            !changed ==> powers@ == capped(start, max_bps),
        decreases total(powers@),
            (if changed {
                1int
            } else {
                0int
            }),
    {
        let limit: u64 = share(powers, max_bps);
        let ghost before = powers@;
        changed = false;
        let mut i: usize = 0;
        while i < powers.len()
            invariant
                i <= powers@.len(),
                powers@.len() == before.len(),
                forall|k: int|
                    0 <= k < i ==> #[trigger] powers@[k] == held_to(before, limit)[k],
                forall|k: int| i <= k < powers@.len() ==> #[trigger] powers@[k] == before[k],
                changed == (exists|k: int| 0 <= k < i && #[trigger] before[k] > limit),
            decreases powers@.len() - i,
        {
            if powers[i] > limit {
                powers.set(i, limit);
                changed = true;
                assert(before[i as int] > limit);
            }
            i += 1;
        }
        proof {
            assert(powers@ =~= held_to(before, limit));
            lemma_holding_lowers(before, limit);
            if changed {
                let k = choose|k: int| 0 <= k < before.len() && #[trigger] before[k] > limit;
                assert(powers@[k] != before[k]);
            } else {
                assert(powers@ =~= before);
            }
        }
    }
}

/// Derive the active validator set from every bond.
///
/// Jailed operators and anything below the minimum bond are dropped, the rest is
/// ordered by power and address, the first `max_validators` hold a seat, and power
/// above the ceiling on one validator's share is discarded. Discarding it, rather
/// than refusing such a set, keeps the ceiling from stopping block production.
pub fn active_set(bonds: &[Bond], params: &StakingParams) -> (r: Result<
    ValidatorSet,
    StakingError,
>)
    ensures
        if set_complaint(seated_set(bonds.deep_view(), *params)) is None {
            r matches Ok(set) && set@ == seated_set(bonds.deep_view(), *params)
        } else {
            r == Err::<ValidatorSet, StakingError>(StakingError::NoEligibleValidators)
        },
{
    let mut chosen = rank(bonds, params.min_bond);
    let ghost ranked = chosen.deep_view();
    if chosen.len() > params.max_validators {
        chosen.truncate(params.max_validators);
        assert(chosen.deep_view() =~= ranked.take(params.max_validators as int));
    }
    let ghost seated = seats(bonds.deep_view(), *params);
    assert(chosen.deep_view() == seated);
    let mut powers: Vec<u64> = Vec::new();
    let mut i: usize = 0;
    while i < chosen.len()
        invariant
            i <= chosen@.len(),
            chosen.deep_view() == seated,
            powers@ == seat_powers(seated).take(i as int),
        decreases chosen@.len() - i,
    {
        assert(seated[i as int] == chosen@[i as int].deep_view());
        let p: u64 = power_of(chosen[i].bonded);
        powers.push(
            if p < 1 {
                1
            } else {
                p
            },
        );
        assert(powers@ =~= seat_powers(seated).take(i as int + 1));
        i += 1;
    }
    assert(powers@ =~= seat_powers(seated));
    cap_concentration(&mut powers, params.max_single_share_bps);
    proof {
        lemma_capped(seat_powers(seated), params.max_single_share_bps);
    }
    let ghost want = seated_set(bonds.deep_view(), *params);
    let mut validators: Vec<Validator> = Vec::new();
    let mut k: usize = 0;
    assert(validators.deep_view() =~= want.take(0));
    while k < chosen.len()
        invariant
            k <= chosen@.len(),
            chosen.deep_view() == seated,
            powers@.len() == seated.len(),
            want == seated_validators(seated, powers@),
            validators.deep_view() == want.take(k as int),
        decreases chosen@.len() - k,
    {
        assert(seated[k as int] == chosen@[k as int].deep_view());
        let b: &Bond = chosen[k];
        let ghost done = validators.deep_view();
        let v = Validator::new(b.public_key, powers[k], b.country);
        assert(v.deep_view() == want[k as int]);
        validators.push(v);
        assert(validators.deep_view() =~= done.push(want[k as int]));
        assert(validators.deep_view() =~= want.take(k as int + 1));
        k += 1;
    }
    assert(want.take(want.len() as int) =~= want);
    match ValidatorSet::new(validators) {
        Ok(set) => Ok(set),
        Err(_) => Err(StakingError::NoEligibleValidators),
    }
}

// ---------------------------------------------------------------------------
// Laws
// ---------------------------------------------------------------------------

proof fn lemma_capped(powers: Seq<u64>, max_bps: u32)
    ensures
        capped(powers, max_bps).len() == powers.len(),
        total(capped(powers, max_bps)) <= total(powers),
        forall|i: int|
            0 <= i < powers.len() ==> #[trigger] capped(powers, max_bps)[i] <= powers[i],
        forall|i: int|
            0 <= i < powers.len() && powers[i] >= 1 ==> #[trigger] capped(powers, max_bps)[i] >= 1,
        0 < max_bps < 10_000 ==> forall|i: int|
            0 <= i < powers.len() ==> #[trigger] capped(powers, max_bps)[i] <= ceiling(
                capped(powers, max_bps),
                max_bps,
            ),
        forall|i: int, j: int|
            0 <= i < powers.len() && 0 <= j < powers.len() && powers[i] <= powers[j]
                ==> #[trigger] capped(powers, max_bps)[i] <= #[trigger] capped(powers, max_bps)[j],
    decreases total(powers),
{
    if 0 < max_bps < 10_000 {
        let limit = ceiling(powers, max_bps);
        let next = held_to(powers, limit);
        lemma_holding_lowers(powers, limit);
        if next != powers {
            lemma_capped(next, max_bps);
        } else {
            assert forall|i: int| 0 <= i < powers.len() implies #[trigger] powers[i] <= limit by {
                assert(next[i] == powers[i]);
            }
        }
    }
}

/// Capping only discards power: nobody gains, nobody who had power is left without,
/// and whoever had no less than another still has no less.
pub proof fn law_capping_only_discards(powers: Seq<u64>, max_bps: u32, i: int, j: int)
    requires
        0 <= i < powers.len(),
        0 <= j < powers.len(),
    ensures
        capped(powers, max_bps).len() == powers.len(),
        capped(powers, max_bps)[i] <= powers[i],
        powers[i] >= 1 ==> capped(powers, max_bps)[i] >= 1,
        powers[i] <= powers[j] ==> capped(powers, max_bps)[i] <= capped(powers, max_bps)[j],
{
    lemma_capped(powers, max_bps);
}

/// After capping, nobody's share exceeds the ceiling, unless it is a single unit of
/// power.
pub proof fn law_no_share_exceeds_the_ceiling(powers: Seq<u64>, max_bps: u32, i: int)
    requires
        0 < max_bps < 10_000,
        0 <= i < powers.len(),
    ensures
        ({
            let left = capped(powers, max_bps);
            left[i] <= 1 || left[i] * 10_000 <= total(left) * max_bps
        }),
{
    lemma_capped(powers, max_bps);
    let left = capped(powers, max_bps);
    assert(left[i] <= ceiling(left, max_bps));
}

/// Capping has gone as far as it goes: the ceiling of what is left allows all of it, so
/// capping again changes nothing.
pub proof fn law_capping_is_a_fixed_point(powers: Seq<u64>, max_bps: u32)
    ensures
        ({
            let left = capped(powers, max_bps);
            &&& capped(left, max_bps) == left
            &&& 0 < max_bps < 10_000 ==> held_to(left, ceiling(left, max_bps)) == left
            &&& 0 < max_bps < 10_000 ==> forall|i: int|
                0 <= i < left.len() ==> #[trigger] left[i] <= 1 || left[i] <= total(left)
                    * max_bps as nat / 10_000
        }),
{
    lemma_capped(powers, max_bps);
    let left = capped(powers, max_bps);
    if 0 < max_bps < 10_000 {
        let limit = ceiling(left, max_bps);
        assert forall|i: int| 0 <= i < left.len() implies #[trigger] left[i] <= limit && (left[i]
            <= 1 || left[i] <= total(left) * max_bps as nat / 10_000) by {
            assert(capped(powers, max_bps)[i] <= limit);
        }
        assert(held_to(left, limit) =~= left);
    }
}

/// Capping treats everybody alike: it comes down to one ceiling, laid over all the powers.
pub proof fn law_capping_is_one_ceiling(powers: Seq<u64>, max_bps: u32)
    ensures
        exists|limit: u64| capped(powers, max_bps) == #[trigger] held_to(powers, limit),
    decreases total(powers),
{
    let limit = ceiling(powers, max_bps);
    let next = held_to(powers, limit);
    if max_bps == 0 || max_bps >= 10_000 || next == powers {
        assert(held_to(powers, u64::MAX) =~= powers);
    } else {
        lemma_holding_lowers(powers, limit);
        law_capping_is_one_ceiling(next, max_bps);
        let inner = choose|inner: u64| capped(next, max_bps) == #[trigger] held_to(next, inner);
        let both = if inner < limit {
            inner
        } else {
            limit
        };
        assert(held_to(powers, both) =~= held_to(next, inner));
    }
}

/// A ceiling on shares never stops a set from forming: where the seats form a set
/// with the power they start with, they form one with the power that capping leaves.
pub proof fn law_the_ceiling_never_halts(seated: Seq<BondView>, powers: Seq<u64>, max_bps: u32)
    requires
        powers.len() == seated.len(),
        set_complaint(seated_validators(seated, powers)) is None,
    ensures
        set_complaint(seated_validators(seated, capped(powers, max_bps))) is None,
{
    lemma_capped(powers, max_bps);
    let left = capped(powers, max_bps);
    let full = seated_validators(seated, powers);
    let cut = seated_validators(seated, left);
    lemma_power_is_total(seated, powers);
    lemma_power_is_total(seated, left);
    assert forall|i: int| 0 <= i < cut.len() implies (#[trigger] cut[i]).voting_power != 0 by {
        assert(full[i].voting_power != 0);
        assert(left[i] >= 1);
    }
    assert forall|i: int, j: int| 0 <= i < j < cut.len() implies (#[trigger] cut[i]).address() != (
    #[trigger] cut[j]).address() by {
        assert(full[i].address() != full[j].address());
    }
}

proof fn lemma_power_is_total(seated: Seq<BondView>, powers: Seq<u64>)
    requires
        powers.len() == seated.len(),
    ensures
        power_sum(seated_validators(seated, powers)) == total(powers),
    decreases powers.len(),
{
    if powers.len() > 0 {
        lemma_power_is_total(seated.drop_last(), powers.drop_last());
        assert(seated_validators(seated, powers).drop_last() =~= seated_validators(
            seated.drop_last(),
            powers.drop_last(),
        ));
    }
}

proof fn lemma_rank_order(a: BondView, b: BondView, c: BondView)
    ensures
        !ranks_before(a, a),
        ranks_before(a, b) && ranks_before(b, c) ==> ranks_before(a, c),
        ranks_before(a, b) ==> !ranks_before(b, a),
        !ranks_before(b, a) && !ranks_before(c, b) ==> !ranks_before(c, a),
        !ranks_before(a, b) && !ranks_before(b, a) ==> a.operator.0@ == b.operator.0@,
{
    let (x, y, z) = (a.operator.0@, b.operator.0@, c.operator.0@);
    lemma_lex_irreflexive(x);
    lemma_lex_total(x, y);
    lemma_lex_total(y, z);
    lemma_lex_total(x, z);
    if lex_less(x, y) && lex_less(y, x) {
        lemma_lex_transitive(x, y, x);
    }
    if lex_less(x, y) && lex_less(y, z) {
        lemma_lex_transitive(x, y, z);
    }
    if lex_less(z, x) && lex_less(x, y) {
        lemma_lex_transitive(z, x, y);
    }
}

/// Whether every bond of a list is one of another's.
pub open spec fn drawn_from(list: Seq<BondView>, bonds: Seq<BondView>) -> bool {
    forall|i: int| 0 <= i < list.len() ==> bonds.contains(#[trigger] list[i])
}

/// Whether a list is in order of rank.
pub open spec fn in_rank_order(list: Seq<BondView>) -> bool {
    forall|i: int, j: int|
        0 <= i < j < list.len() ==> !ranks_before(#[trigger] list[j], #[trigger] list[i])
}

proof fn lemma_placed_keeps_order(list: Seq<BondView>, b: BondView)
    requires
        in_rank_order(list),
    ensures
        in_rank_order(placed(list, b)),
        placed(list, b).to_multiset() == list.to_multiset().insert(b),
        placed(list, b).len() == list.len() + 1,
        forall|i: int|
            0 <= i < placed(list, b).len() ==> #[trigger] placed(list, b)[i] == b || list.contains(
                placed(list, b)[i],
            ),
    decreases list.len(),
{
    broadcast use vstd::seq_lib::group_to_multiset_ensures;

    let out = placed(list, b);
    if list.len() > 0 && ranks_before(b, list.last()) {
        let rest = list.drop_last();
        let low = placed(rest, b);
        lemma_placed_keeps_order(rest, b);
        assert forall|i: int| 0 <= i < low.len() implies !ranks_before(
            list.last(),
            #[trigger] low[i],
        ) by {
            if low[i] == b {
                lemma_rank_order(b, list.last(), b);
            } else {
                let k = choose|k: int| 0 <= k < rest.len() && rest[k] == low[i];
                assert(list[k] == low[i]);
                assert(!ranks_before(list[list.len() - 1], list[k]));
            }
        }
        assert forall|i: int, j: int| 0 <= i < j < out.len() implies !ranks_before(
            #[trigger] out[j],
            #[trigger] out[i],
        ) by {
            if j == low.len() {
                assert(out[i] == low[i]);
            } else {
                assert(out[i] == low[i] && out[j] == low[j]);
            }
        }
        assert forall|i: int| 0 <= i < out.len() implies #[trigger] out[i] == b || list.contains(
            out[i],
        ) by {
            if i == low.len() {
                assert(out[i] == list[list.len() - 1]);
            } else {
                assert(out[i] == low[i]);
                if low[i] != b {
                    let k = choose|k: int| 0 <= k < rest.len() && rest[k] == low[i];
                    assert(list[k] == low[i]);
                }
            }
        }
        assert(list =~= rest.push(list.last()));
        assert(rest.to_multiset().insert(b).insert(list.last()) =~= rest.to_multiset().insert(
            list.last(),
        ).insert(b));
    } else {
        assert forall|i: int, j: int| 0 <= i < j < out.len() implies !ranks_before(
            #[trigger] out[j],
            #[trigger] out[i],
        ) by {
            assert(out[i] == list[i]);
            if j == list.len() {
                let last = list[list.len() - 1];
                if i < list.len() - 1 {
                    assert(!ranks_before(last, list[i]));
                    lemma_rank_order(list[i], last, b);
                }
            } else {
                assert(out[j] == list[j]);
            }
        }
        assert forall|i: int| 0 <= i < out.len() implies #[trigger] out[i] == b || list.contains(
            out[i],
        ) by {
            if i < list.len() {
                assert(out[i] == list[i]);
            }
        }
    }
}

/// A ranking holds exactly the bonds that may hold a seat, in order of rank.
pub proof fn law_a_ranking_is_complete_and_ordered(bonds: Seq<BondView>, min_bond: Amount)
    ensures
        in_rank_order(ranking(bonds, min_bond)),
        ranking(bonds, min_bond).to_multiset() == bonds.to_multiset().filter(
            |b: BondView| eligible(b, min_bond),
        ),
        drawn_from(ranking(bonds, min_bond), bonds),
        forall|i: int|
            0 <= i < ranking(bonds, min_bond).len() ==> eligible(
                #[trigger] ranking(bonds, min_bond)[i],
                min_bond,
            ),
    decreases bonds.len(),
{
    broadcast use vstd::seq_lib::group_to_multiset_ensures;

    let keep = |b: BondView| eligible(b, min_bond);
    let out = ranking(bonds, min_bond);
    if bonds.len() == 0 {
        assert(out.to_multiset() =~= bonds.to_multiset().filter(keep));
    } else {
        let rest = bonds.drop_last();
        let b = bonds.last();
        let low = ranking(rest, min_bond);
        law_a_ranking_is_complete_and_ordered(rest, min_bond);
        assert(bonds =~= rest.push(b));
        if eligible(b, min_bond) {
            lemma_placed_keeps_order(low, b);
            assert(rest.to_multiset().insert(b).filter(keep) =~= rest.to_multiset().filter(
                keep,
            ).insert(b));
        } else {
            assert(rest.to_multiset().insert(b).filter(keep) =~= rest.to_multiset().filter(keep));
        }
        assert forall|i: int| 0 <= i < out.len() implies bonds.contains(#[trigger] out[i])
            && eligible(out[i], min_bond) by {
            if eligible(b, min_bond) && out[i] == b {
                assert(bonds[bonds.len() - 1] == b);
            } else {
                let k = choose|k: int| 0 <= k < low.len() && low[k] == out[i];
                assert(low[k] == out[i]);
                assert(rest.contains(low[k]));
                let m = choose|m: int| 0 <= m < rest.len() && rest[m] == low[k];
                assert(bonds[m] == out[i]);
            }
        }
    }
}

proof fn lemma_strict_order_is_unique(x: Seq<BondView>, y: Seq<BondView>)
    requires
        forall|i: int, j: int|
            0 <= i < j < x.len() ==> ranks_before(#[trigger] x[i], #[trigger] x[j]),
        forall|i: int, j: int|
            0 <= i < j < y.len() ==> ranks_before(#[trigger] y[i], #[trigger] y[j]),
        x.to_multiset() == y.to_multiset(),
    ensures
        x == y,
    decreases x.len(),
{
    broadcast use vstd::seq_lib::group_to_multiset_ensures;

    assert(x.to_multiset().len() == x.len());
    assert(y.to_multiset().len() == y.len());
    if x.len() > 0 {
        assert(x.to_multiset().contains(x[0])) by {
            assert(x.contains(x[0]));
        }
        assert(y.to_multiset().contains(y[0])) by {
            assert(y.contains(y[0]));
        }
        assert(y.contains(x[0]));
        assert(x.contains(y[0]));
        let k = choose|k: int| 0 <= k < y.len() && y[k] == x[0];
        let m = choose|m: int| 0 <= m < x.len() && x[m] == y[0];
        if x[0] != y[0] {
            assert(ranks_before(y[0], y[k]));
            assert(ranks_before(x[0], x[m]));
            lemma_rank_order(x[0], y[0], x[0]);
        }
        assert(x.drop_first() =~= x.remove(0));
        assert(y.drop_first() =~= y.remove(0));
        assert(x.drop_first().to_multiset() =~= x.to_multiset().remove(x[0]));
        assert(y.drop_first().to_multiset() =~= y.to_multiset().remove(y[0]));
        lemma_strict_order_is_unique(x.drop_first(), y.drop_first());
        assert(x =~= seq![x[0]] + x.drop_first());
        assert(y =~= seq![y[0]] + y.drop_first());
    } else {
        assert(x =~= y);
    }
}

/// Whether no operator has two of the bonds.
pub open spec fn one_bond_each(bonds: Seq<BondView>) -> bool {
    forall|i: int, j: int|
        0 <= i < j < bonds.len()
            ==> (#[trigger] bonds[i]).operator != (#[trigger] bonds[j]).operator
}

proof fn lemma_ranking_is_strict(bonds: Seq<BondView>, min_bond: Amount)
    requires
        one_bond_each(bonds),
    ensures
        one_bond_each(ranking(bonds, min_bond)),
        forall|i: int, j: int|
            0 <= i < j < ranking(bonds, min_bond).len() ==> ranks_before(
                #[trigger] ranking(bonds, min_bond)[i],
                #[trigger] ranking(bonds, min_bond)[j],
            ),
    decreases bonds.len(),
{
    let out = ranking(bonds, min_bond);
    law_a_ranking_is_complete_and_ordered(bonds, min_bond);
    if bonds.len() > 0 {
        let rest = bonds.drop_last();
        let b = bonds.last();
        let low = ranking(rest, min_bond);
        lemma_ranking_is_strict(rest, min_bond);
        law_a_ranking_is_complete_and_ordered(rest, min_bond);
        assert forall|k: int| 0 <= k < low.len() implies (#[trigger] low[k]).operator
            != b.operator by {
            assert(rest.contains(low[k]));
            let m = choose|m: int| 0 <= m < rest.len() && rest[m] == low[k];
            assert(bonds[m].operator != bonds[bonds.len() - 1].operator);
        }
        if eligible(b, min_bond) {
            lemma_placed_operators(low, b);
        }
    }
    assert forall|i: int, j: int| 0 <= i < j < out.len() implies ranks_before(
        #[trigger] out[i],
        #[trigger] out[j],
    ) by {
        lemma_rank_order(out[i], out[j], out[i]);
        assert(!ranks_before(out[j], out[i]));
        assert(out[i].operator != out[j].operator);
        if out[i].operator.0@ == out[j].operator.0@ {
            assert(out[i].operator.0 =~= out[j].operator.0);
        }
    }
}

proof fn lemma_placed_operators(list: Seq<BondView>, b: BondView)
    requires
        one_bond_each(list),
        forall|k: int| 0 <= k < list.len() ==> (#[trigger] list[k]).operator != b.operator,
    ensures
        one_bond_each(placed(list, b)),
        placed(list, b).len() == list.len() + 1,
        forall|k: int|
            0 <= k < placed(list, b).len() ==> #[trigger] placed(list, b)[k] == b || list.contains(
                placed(list, b)[k],
            ),
    decreases list.len(),
{
    let out = placed(list, b);
    if list.len() > 0 && ranks_before(b, list.last()) {
        let rest = list.drop_last();
        let low = placed(rest, b);
        lemma_placed_operators(rest, b);
        assert forall|i: int, j: int| 0 <= i < j < out.len() implies (#[trigger] out[i]).operator
            != (#[trigger] out[j]).operator by {
            if j == low.len() {
                assert(out[i] == low[i]);
                assert(list[list.len() - 1] == out[j]);
                if low[i] != b {
                    let k = choose|k: int| 0 <= k < rest.len() && rest[k] == low[i];
                    assert(list[k].operator != list[list.len() - 1].operator);
                }
            } else {
                assert(low[i].operator != low[j].operator);
            }
        }
        assert forall|k: int| 0 <= k < out.len() implies #[trigger] out[k] == b || list.contains(
            out[k],
        ) by {
            if k == low.len() {
                assert(list[list.len() - 1] == out[k]);
            } else if low[k] != b {
                let m = choose|m: int| 0 <= m < rest.len() && rest[m] == low[k];
                assert(list[m] == out[k]);
            }
        }
    } else {
        assert forall|i: int, j: int| 0 <= i < j < out.len() implies (#[trigger] out[i]).operator
            != (#[trigger] out[j]).operator by {
            assert(list[i] == out[i]);
        }
        assert forall|k: int| 0 <= k < out.len() implies #[trigger] out[k] == b || list.contains(
            out[k],
        ) by {
            if k < list.len() {
                assert(list[k] == out[k]);
            }
        }
    }
}

/// The set does not depend on the order that the bonds come in: nodes that are
/// handed the same bonds, one for each operator, derive the same set, and so the same bytes
/// to hash.
pub proof fn law_the_set_ignores_order(
    a: Seq<BondView>,
    b: Seq<BondView>,
    params: StakingParams,
)
    requires
        a.to_multiset() == b.to_multiset(),
        one_bond_each(a),
        one_bond_each(b),
    ensures
        seated_set(a, params) == seated_set(b, params),
        Vec::<Validator>::bytes_of(seated_set(a, params)) == Vec::<Validator>::bytes_of(
            seated_set(b, params),
        ),
{
    law_a_ranking_is_complete_and_ordered(a, params.min_bond);
    law_a_ranking_is_complete_and_ordered(b, params.min_bond);
    lemma_ranking_is_strict(a, params.min_bond);
    lemma_ranking_is_strict(b, params.min_bond);
    lemma_strict_order_is_unique(ranking(a, params.min_bond), ranking(b, params.min_bond));
}

/// Nobody who is jailed, or whose stake is below the minimum, holds a seat, and no
/// more hold one than there are seats.
pub proof fn law_only_the_eligible_are_seated(bonds: Seq<BondView>, params: StakingParams, i: int)
    requires
        0 <= i < seats(bonds, params).len(),
    ensures
        !seats(bonds, params)[i].jailed,
        seats(bonds, params)[i].bonded.0 >= params.min_bond.0,
        bonds.contains(seats(bonds, params)[i]),
        seats(bonds, params).len() <= params.max_validators,
{
    law_a_ranking_is_complete_and_ordered(bonds, params.min_bond);
    let ranked = ranking(bonds, params.min_bond);
    assert(seats(bonds, params)[i] == ranked[i]);
    assert(eligible(ranked[i], params.min_bond));
}

/// The largest stakes are seated: whoever is passed over for want of a seat does not
/// rank before anybody who holds one.
pub proof fn law_the_largest_are_seated(
    bonds: Seq<BondView>,
    params: StakingParams,
    i: int,
    j: int,
)
    requires
        0 <= i < seats(bonds, params).len(),
        seats(bonds, params).len() <= j < ranking(bonds, params.min_bond).len(),
    ensures
        !ranks_before(ranking(bonds, params.min_bond)[j], seats(bonds, params)[i]),
        power(ranking(bonds, params.min_bond)[j].bonded) <= power(
            seats(bonds, params)[i].bonded,
        ),
{
    law_a_ranking_is_complete_and_ordered(bonds, params.min_bond);
    let ranked = ranking(bonds, params.min_bond);
    assert(seats(bonds, params)[i] == ranked[i]);
    assert(!ranks_before(ranked[j], ranked[i]));
}

/// Whether no two of the bonds have consensus keys with one address.
pub open spec fn keys_apart(bonds: Seq<BondView>) -> bool {
    forall|i: int, j: int|
        0 <= i < j < bonds.len() ==> key_address((#[trigger] bonds[i]).public_key) != key_address(
            (#[trigger] bonds[j]).public_key,
        )
}

/// A set forms exactly where somebody may hold a seat and there is one, no two of the
/// seated keys share an address, and the power that capping leaves can be counted.
pub proof fn law_when_a_set_forms(bonds: Seq<BondView>, params: StakingParams)
    ensures
        ({
            let seated = seats(bonds, params);
            set_complaint(seated_set(bonds, params)) is None <==> {
                &&& exists|i: int|
                    0 <= i < bonds.len() && eligible(#[trigger] bonds[i], params.min_bond)
                &&& params.max_validators >= 1
                &&& keys_apart(seated)
                &&& total(capped(seat_powers(seated), params.max_single_share_bps)) <= u64::MAX
            }
        }),
{
    broadcast use vstd::seq_lib::group_to_multiset_ensures;

    let ranked = ranking(bonds, params.min_bond);
    let seated = seats(bonds, params);
    let powers = seat_powers(seated);
    let left = capped(powers, params.max_single_share_bps);
    let set = seated_set(bonds, params);
    lemma_capped(powers, params.max_single_share_bps);
    lemma_power_is_total(seated, left);
    law_a_ranking_is_complete_and_ordered(bonds, params.min_bond);
    if exists|i: int| 0 <= i < bonds.len() && eligible(#[trigger] bonds[i], params.min_bond) {
        let i = choose|i: int|
            0 <= i < bonds.len() && eligible(#[trigger] bonds[i], params.min_bond);
        assert(bonds.contains(bonds[i]));
        assert(bonds.to_multiset().count(bonds[i]) > 0);
        assert(ranked.to_multiset().count(bonds[i]) > 0);
        assert(ranked.contains(bonds[i]));
    } else if ranked.len() > 0 {
        assert(bonds.contains(ranked[0]));
        let k = choose|k: int| 0 <= k < bonds.len() && bonds[k] == ranked[0];
        assert(eligible(bonds[k], params.min_bond));
    }
    assert forall|i: int| 0 <= i < set.len() implies (#[trigger] set[i]).voting_power != 0
        && set[i].address() == key_address(seated[i].public_key) by {
        assert(powers[i] >= 1);
        assert(left[i] >= 1);
    }
    if keys_apart(seated) {
        assert forall|i: int, j: int| 0 <= i < j < set.len() implies (#[trigger] set[i]).address()
            != (#[trigger] set[j]).address() by {
            assert(key_address(seated[i].public_key) != key_address(seated[j].public_key));
        }
    } else {
        let (i, j) = choose|i: int, j: int|
            0 <= i < j < seated.len() && key_address((#[trigger] seated[i]).public_key)
                == key_address((#[trigger] seated[j]).public_key);
        assert(set[i].address() == set[j].address());
    }
}

/// Where every operator has one bond and a key of their own, the chain has validators as
/// long as anybody may hold a seat. Keys whose addresses clash, and more power than can
/// be counted, are left out.
pub proof fn law_somebody_eligible_is_enough(bonds: Seq<BondView>, params: StakingParams, i: int)
    requires
        one_bond_each(bonds),
        keys_apart(bonds),
        params.max_validators >= 1,
        0 <= i < bonds.len(),
        eligible(bonds[i], params.min_bond),
        total(seat_powers(seats(bonds, params))) <= u64::MAX,
    ensures
        set_complaint(seated_set(bonds, params)) is None,
{
    let ranked = ranking(bonds, params.min_bond);
    let seated = seats(bonds, params);
    lemma_capped(seat_powers(seated), params.max_single_share_bps);
    law_a_ranking_is_complete_and_ordered(bonds, params.min_bond);
    lemma_ranking_is_strict(bonds, params.min_bond);
    assert forall|k: int, m: int| 0 <= k < m < seated.len() implies key_address(
        (#[trigger] seated[k]).public_key,
    ) != key_address((#[trigger] seated[m]).public_key) by {
        assert(seated[k] == ranked[k] && seated[m] == ranked[m]);
        assert(bonds.contains(ranked[k]) && bonds.contains(ranked[m]));
        assert(ranked[k].operator != ranked[m].operator);
        let a = choose|a: int| 0 <= a < bonds.len() && bonds[a] == ranked[k];
        let b = choose|b: int| 0 <= b < bonds.len() && bonds[b] == ranked[m];
        if a < b {
            assert(key_address(bonds[a].public_key) != key_address(bonds[b].public_key));
        } else {
            assert(key_address(bonds[b].public_key) != key_address(bonds[a].public_key));
        }
    }
    law_when_a_set_forms(bonds, params);
}

/// Who is in the set and with what power: the first of the eligible bonds in order of
/// rank, as many as there are seats, each with at least one unit and no more than the
/// stake gives, which is one unit where the stake gives none.
pub proof fn law_the_set_is_the_head_of_the_ranking(
    bonds: Seq<BondView>,
    params: StakingParams,
    i: int,
)
    ensures
        ({
            let ranked = ranking(bonds, params.min_bond);
            let set = seated_set(bonds, params);
            &&& ranked.len() == bonds.to_multiset().filter(
                |b: BondView| eligible(b, params.min_bond),
            ).len()
            &&& set.len() == if ranked.len() > params.max_validators {
                params.max_validators as nat
            } else {
                ranked.len()
            }
            &&& 0 <= i < set.len() ==> {
                &&& set[i].public_key == ranked[i].public_key
                &&& set[i].country == ranked[i].country
                &&& 1 <= set[i].voting_power
                &&& set[i].voting_power <= 1 || set[i].voting_power <= power(ranked[i].bonded)
            }
        }),
{
    broadcast use vstd::seq_lib::group_to_multiset_ensures;

    law_a_ranking_is_complete_and_ordered(bonds, params.min_bond);
    let ranked = ranking(bonds, params.min_bond);
    let seated = seats(bonds, params);
    let powers = seat_powers(seated);
    lemma_capped(powers, params.max_single_share_bps);
    assert(ranked.to_multiset().len() == ranked.len());
    if 0 <= i < seated.len() {
        assert(seated[i] == ranked[i]);
        assert(powers[i] >= 1);
        assert(capped(powers, params.max_single_share_bps)[i] <= powers[i]);
        assert(capped(powers, params.max_single_share_bps)[i] >= 1);
    }
}

/// Power is one unit for each whole AFRI of stake, as far as a `u64` goes, and a seat has
/// at least one.
pub proof fn law_power_is_whole_afri(seated: Seq<BondView>, bonded: Amount, i: int)
    ensures
        power(bonded) == if bonded.0 / 1_000_000_000 > u64::MAX {
            u64::MAX as int
        } else {
            (bonded.0 / 1_000_000_000) as int
        },
        seat_powers(seated).len() == seated.len(),
        0 <= i < seated.len() ==> seat_powers(seated)[i] == if seated[i].bonded.0
            < 1_000_000_000 {
            1u64
        } else {
            power(seated[i].bonded)
        },
{
}

/// The powers together are their sum.
pub proof fn law_total_is_the_sum(powers: Seq<u64>)
    ensures
        total(powers) == powers.fold_left(0int, |t: int, p: u64| t + p),
    decreases powers.len(),
{
    if powers.len() > 0 {
        law_total_is_the_sum(powers.drop_last());
    }
}

/// Who comes first in the ranking: whoever has more whole AFRI at stake, and among
/// equals whoever has the lower address.
pub proof fn law_rank_is_power_and_address(
    bonds: Seq<BondView>,
    min_bond: Amount,
    i: int,
    j: int,
)
    requires
        0 <= i < j < ranking(bonds, min_bond).len(),
    ensures
        ({
            let (a, b) = (ranking(bonds, min_bond)[i], ranking(bonds, min_bond)[j]);
            ||| power(a.bonded) > power(b.bonded)
            ||| power(a.bonded) == power(b.bonded) && !lex_less(b.operator.0@, a.operator.0@)
        }),
        forall|k: int|
            0 <= k < ranking(bonds, min_bond).len() ==> {
                let b = #[trigger] ranking(bonds, min_bond)[k];
                !b.jailed && b.bonded.0 >= min_bond.0
            },
{
    law_a_ranking_is_complete_and_ordered(bonds, min_bond);
    let ranked = ranking(bonds, min_bond);
    assert(!ranks_before(ranked[j], ranked[i]));
    assert forall|k: int| 0 <= k < ranked.len() implies {
        let b = #[trigger] ranked[k];
        !b.jailed && b.bonded.0 >= min_bond.0
    } by {
        assert(eligible(ranked[k], min_bond));
    }
}

proof fn lemma_total_is_monotone(a: Seq<u64>, b: Seq<u64>)
    requires
        a.len() == b.len(),
        forall|i: int| 0 <= i < a.len() ==> #[trigger] a[i] <= b[i],
    ensures
        total(a) <= total(b),
    decreases a.len(),
{
    if a.len() > 0 {
        assert(a.drop_last().len() == b.drop_last().len());
        assert forall|i: int| 0 <= i < a.drop_last().len() implies #[trigger] a.drop_last()[i]
            <= b.drop_last()[i] by {
            assert(a[i] <= b[i]);
        }
        lemma_total_is_monotone(a.drop_last(), b.drop_last());
        assert(a[a.len() - 1] <= b[b.len() - 1]);
    }
}

/// Capping discards no more than it has to: of all the ways to leave everybody with no
/// more than they had, and nobody with more than the ceiling's share of what is left, it
/// leaves everybody the most.
pub proof fn law_capping_leaves_the_most(powers: Seq<u64>, max_bps: u32, other: Seq<u64>)
    requires
        0 < max_bps < 10_000,
        other.len() == powers.len(),
        forall|i: int| 0 <= i < powers.len() ==> #[trigger] other[i] <= powers[i],
        forall|i: int|
            0 <= i < other.len() ==> #[trigger] other[i] <= 1 || other[i] <= total(other)
                * max_bps as nat / 10_000,
    ensures
        forall|i: int|
            0 <= i < powers.len() ==> other[i] <= #[trigger] capped(powers, max_bps)[i],
    decreases total(powers),
{
    let limit = ceiling(powers, max_bps);
    let next = held_to(powers, limit);
    lemma_total_is_monotone(other, powers);
    let (x, y, m) = (total(other), total(powers), max_bps as nat);
    assert(x * m <= y * m) by (nonlinear_arith)
        requires
            x <= y,
    ;
    assert forall|i: int| 0 <= i < next.len() implies #[trigger] other[i] <= next[i] by {
        assert(other[i] <= powers[i]);
        assert(x * m / 10_000 <= y * m / 10_000);
    }
    if next != powers {
        lemma_holding_lowers(powers, limit);
        law_capping_leaves_the_most(next, max_bps, other);
        assert(capped(powers, max_bps) == capped(next, max_bps));
    }
    assert forall|i: int| 0 <= i < powers.len() implies other[i] <= #[trigger] capped(
        powers,
        max_bps,
    )[i] by {
        if next == powers {
            assert(other[i] <= powers[i]);
        }
    }
}

/// Without a ceiling nothing is discarded.
pub proof fn law_no_ceiling_discards_nothing(powers: Seq<u64>, max_bps: u32)
    requires
        max_bps == 0 || max_bps >= 10_000,
    ensures
        capped(powers, max_bps) == powers,
{
}

} // verus!
