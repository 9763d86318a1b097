//! Staking: making the economic half of the security argument real.
//!
//! Slashing must reach stake that has already begun unbonding. Otherwise a validator
//! equivocates, unbonds in the same block, and by the time anyone submits the
//! evidence the money is sitting in a queue nobody thinks to touch. Every
//! [`Unbonding`] entry therefore records the height at which it left, and an
//! infraction reaches every entry that was still bonded then.
//!
//! Concentration limits must not be able to halt the chain: power above the ceiling
//! is discarded, never refused.
//!
//! Slashing takes money, once. Jailing stops the operator signing until governance
//! releases them; only that protects the chain from a validator that is misbehaving
//! now.

pub mod bond;
pub mod effects;
pub mod error;
pub mod index;
pub mod laws;
pub mod params;
pub mod refusals;
pub mod set;

pub use self::bond::{Bond, Unbonding};
pub use self::error::StakingError;
pub use self::params::StakingParams;
pub use self::set::{active_set, power_of};
pub use crate::primitives::UNBONDING_MS;

use self::bond::BondView;
use self::error::StakingFault;
use self::index::{in_order, sort_addresses};
use self::set::seated_set;
use crate::bank::{destroyed, transferred, Bank};
use crate::consensus::{
    set_complaint, validator_at, Equivocation, EquivocationView, ValidatorSet, ValidatorView,
};
use crate::crypto::address::{address_in, Address};
use crate::crypto::hash::{Domain, Hash32};
use crate::crypto::keys::{signed_by, PublicKey};
use crate::primitives::amount::{amount_text, Amount};
use crate::primitives::codec::{decode_exact, parse_exact, Canonical, Decode, Encode};
use crate::primitives::country::CountryCode;
use crate::primitives::denom::Denom;
use crate::primitives::ids::{Height, Timestamp};
use crate::state::shape::{lookup, path};
use crate::state::store::{
    bond_index_key, bond_key, unbonding_key, KeyValueStore, StateError, StateFault, StoreKey,
};
use vstd::prelude::*;

verus! {

/// Fraction of stake destroyed for equivocation, in basis points.
pub const SLASH_EQUIVOCATION_BPS: u32 = 500;

/// What a store holds, by path.
pub type Records = Map<Hash32, Seq<u8>>;

/// The address of the module account.
pub open spec fn staking_address() -> Address {
    address_in(Domain::ModuleAddress, seq![115, 116, 97, 107, 105, 110, 103])
}

/// The module account holding every bond. Bonded stake leaves the operator's balance
/// entirely.
pub fn staking_account() -> (a: Address)
    ensures
        a == staking_address(),
{
    let name: [u8; 7] = [115, 116, 97, 107, 105, 110, 103];
    assert(name@ =~= seq![115, 116, 97, 107, 105, 110, 103]);
    Address::derived(Domain::ModuleAddress, name.as_slice())
}

// ---------------------------------------------------------------------------
// What is stored
// ---------------------------------------------------------------------------

/// The record stored under a key.
pub open spec fn stored<T: Decode>(records: Records, key: Seq<u8>) -> Result<
    Option<T::V>,
    StakingFault,
> {
    match lookup(records, path(key)) {
        None => Ok(None),
        Some(bytes) => match parse_exact::<T>(bytes) {
            Ok(v) => Ok(Some(v)),
            Err(f) => Err(
                StakingFault::State(StateFault::Corrupt { key: "bond"@, reason: f.text() }),
            ),
        },
    }
}

/// An operator's bond.
pub open spec fn bond_in(records: Records, operator: Address) -> Result<
    Option<BondView>,
    StakingFault,
> {
    stored::<Bond>(records, bond_key(operator))
}

/// An operator's unbonding queue.
pub open spec fn queue_in(records: Records, operator: Address) -> Result<
    Seq<Unbonding>,
    StakingFault,
> {
    match stored::<Vec<Unbonding>>(records, unbonding_key(operator)) {
        Ok(Some(queue)) => Ok(queue),
        Ok(None) => Ok(Seq::empty()),
        Err(f) => Err(f),
    }
}

/// The operators that hold a bond.
pub open spec fn candidates_in(records: Records) -> Result<Seq<Address>, StakingFault> {
    match stored::<Vec<Address>>(records, bond_index_key()) {
        Ok(Some(list)) => Ok(list),
        Ok(None) => Ok(Seq::empty()),
        Err(f) => Err(f),
    }
}

/// The bonds of some operators, in their order; those without one are passed over.
pub open spec fn bonds_of(records: Records, operators: Seq<Address>) -> Result<
    Seq<BondView>,
    StakingFault,
>
    decreases operators.len(),
{
    if operators.len() == 0 {
        Ok(Seq::empty())
    } else {
        match bonds_of(records, operators.drop_last()) {
            Err(f) => Err(f),
            Ok(list) => match bond_in(records, operators.last()) {
                Err(f) => Err(f),
                Ok(None) => Ok(list),
                Ok(Some(b)) => Ok(list.push(b)),
            },
        }
    }
}

/// Every bond, in candidate-index order.
pub open spec fn bonds_in(records: Records) -> Result<Seq<BondView>, StakingFault> {
    match candidates_in(records) {
        Ok(operators) => bonds_of(records, operators),
        Err(f) => Err(f),
    }
}

/// The active validators that the records give.
pub open spec fn active_in(records: Records, params: StakingParams) -> Result<
    Seq<ValidatorView>,
    StakingFault,
> {
    match bonds_in(records) {
        Err(f) => Err(f),
        Ok(bonds) => if set_complaint(seated_set(bonds, params)) is None {
            Ok(seated_set(bonds, params))
        } else {
            Err(StakingFault::NoEligibleValidators)
        },
    }
}

/// The records with a bond written.
pub open spec fn with_bond(records: Records, bond: BondView) -> Records {
    records.insert(path(bond_key(bond.operator)), Bond::bytes_of(bond))
}

/// The records with an unbonding queue written; an empty one is not stored.
pub open spec fn with_queue(records: Records, operator: Address, queue: Seq<Unbonding>) -> Records {
    if queue.len() == 0 {
        records.remove(path(unbonding_key(operator)))
    } else {
        records.insert(path(unbonding_key(operator)), Vec::<Unbonding>::bytes_of(queue))
    }
}

/// The records with a candidate index written.
pub open spec fn with_candidates(records: Records, list: Seq<Address>) -> Records {
    records.insert(path(bond_index_key()), Vec::<Address>::bytes_of(list))
}

/// All that is queued.
pub open spec fn queued(queue: Seq<Unbonding>) -> nat
    decreases queue.len(),
{
    if queue.len() == 0 {
        0
    } else {
        queued(queue.drop_last()) + queue.last().amount.0 as nat
    }
}

/// The entries of a queue that may be withdrawn at a time, or those that may not.
pub open spec fn entries_due(queue: Seq<Unbonding>, now: Timestamp, due: bool) -> Seq<Unbonding>
    decreases queue.len(),
{
    if queue.len() == 0 {
        Seq::empty()
    } else if queue.last().is_due(now) == due {
        entries_due(queue.drop_last(), now, due).push(queue.last())
    } else {
        entries_due(queue.drop_last(), now, due)
    }
}

/// `amount * bps / 10_000`, rounded down; no more than the amount for `bps` up to
/// 10,000.
pub open spec fn fraction_of(amount: Amount, bps: u128) -> Amount {
    Amount((amount.0 * bps / 10_000) as u128)
}

/// What slashing takes of an amount.
pub open spec fn slice_of(amount: Amount) -> Amount {
    fraction_of(amount, SLASH_EQUIVOCATION_BPS as u128)
}

/// What slashing takes of a queue entry: nothing of one that had left before the
/// infraction.
pub open spec fn taken_from(entry: Unbonding, infraction: Height) -> Amount {
    if entry.answers_for(infraction) {
        slice_of(entry.amount)
    } else {
        Amount(0)
    }
}

/// What slashing takes of a queue.
pub open spec fn taken_from_all(queue: Seq<Unbonding>, infraction: Height) -> nat
    decreases queue.len(),
{
    if queue.len() == 0 {
        0
    } else {
        taken_from_all(queue.drop_last(), infraction) + taken_from(
            queue.last(),
            infraction,
        ).0 as nat
    }
}

/// What slashing leaves of a queue entry.
pub open spec fn left_of(entry: Unbonding, infraction: Height) -> Unbonding {
    Unbonding {
        amount: Amount((entry.amount.0 - taken_from(entry, infraction).0) as u128),
        ..entry
    }
}

/// What slashing leaves of a queue.
pub open spec fn left_of_all(queue: Seq<Unbonding>, infraction: Height) -> Seq<Unbonding> {
    Seq::new(queue.len(), |i: int| left_of(queue[i], infraction))
}

// ---------------------------------------------------------------------------
// Operations
// ---------------------------------------------------------------------------

/// What an operation returns and leaves behind.
pub struct Outcome<T> {
    pub result: Result<T, StakingFault>,
    pub records: Records,
}

/// An operation that fails and leaves everything as it was.
pub open spec fn refused<T>(records: Records, fault: StakingFault) -> Outcome<T> {
    Outcome { result: Err(fault), records }
}

/// Whether a result and the records left behind are those of an outcome.
pub open spec fn comes_to<T>(r: Result<T, StakingError>, after: Records, want: Outcome<T>) -> bool {
    &&& match want.result {
        Ok(v) => r == Ok::<T, StakingError>(v),
        Err(f) => r matches Err(e) && e.deep_view() == f,
    }
    &&& after == want.records
}

/// Locking stake and registering as a candidate.
pub open spec fn bonding(
    records: Records,
    params: StakingParams,
    operator: Address,
    public_key: Seq<u8>,
    country: Seq<u8>,
    amount: Amount,
) -> Outcome<()> {
    if amount.0 == 0 {
        refused(records, StakingFault::ZeroAmount)
    } else if amount.0 < params.min_bond.0 {
        refused(
            records,
            StakingFault::BelowMinimumBond {
                got: amount_text(amount.0 as nat),
                min: amount_text(params.min_bond.0 as nat),
            },
        )
    } else {
        match (bond_in(records, operator), candidates_in(records)) {
            (Err(f), _) => refused(records, f),
            (Ok(Some(_)), _) => refused(records, StakingFault::AlreadyBonded),
            (Ok(None), Err(f)) => refused(records, f),
            (Ok(None), Ok(list)) => if list.len() >= params.max_candidates {
                refused(records, StakingFault::CandidateSetFull)
            } else {
                match transferred(records, operator, staking_address(), "afri"@, amount) {
                    Err(f) => refused(records, StakingFault::Bank(f)),
                    Ok(paid) => Outcome {
                        result: Ok(()),
                        records: with_candidates(
                            with_bond(
                                paid,
                                BondView {
                                    operator,
                                    public_key,
                                    country,
                                    bonded: amount,
                                    jailed: false,
                                    jailed_at: None,
                                },
                            ),
                            in_order(list.push(operator)),
                        ),
                    },
                }
            },
        }
    }
}

/// Adding to a bond. A sum that leaves its range is refused after the stake has been
/// paid in.
pub open spec fn adding(records: Records, operator: Address, amount: Amount) -> Outcome<()> {
    if amount.0 == 0 {
        refused(records, StakingFault::ZeroAmount)
    } else {
        match bond_in(records, operator) {
            Err(f) => refused(records, f),
            Ok(None) => refused(records, StakingFault::NoSuchBond),
            Ok(Some(bond)) => match transferred(
                records,
                operator,
                staking_address(),
                "afri"@,
                amount,
            ) {
                Err(f) => refused(records, StakingFault::Bank(f)),
                Ok(paid) => if bond.bonded.0 + amount.0 > u128::MAX {
                    refused(paid, StakingFault::ZeroAmount)
                } else {
                    Outcome {
                        result: Ok(()),
                        records: with_bond(
                            paid,
                            BondView {
                                bonded: Amount((bond.bonded.0 + amount.0) as u128),
                                ..bond
                            },
                        ),
                    }
                },
            },
        }
    }
}

/// When stake that begins to leave now may be withdrawn.
pub open spec fn release_time(now: Timestamp, params: StakingParams) -> Timestamp {
    if now.0 + params.unbonding_ms > u64::MAX {
        Timestamp(u64::MAX)
    } else {
        Timestamp((now.0 + params.unbonding_ms) as u64)
    }
}

/// Beginning to withdraw stake.
pub open spec fn unbonding(
    records: Records,
    params: StakingParams,
    operator: Address,
    amount: Amount,
    height: Height,
    now: Timestamp,
) -> Outcome<()> {
    if amount.0 == 0 {
        refused(records, StakingFault::ZeroAmount)
    } else {
        match (bond_in(records, operator), queue_in(records, operator)) {
            (Err(f), _) => refused(records, f),
            (Ok(None), _) => refused(records, StakingFault::NoSuchBond),
            (Ok(Some(bond)), queue) => if amount.0 > bond.bonded.0 {
                refused(
                    records,
                    StakingFault::InsufficientBond {
                        requested: amount_text(amount.0 as nat),
                        bonded: amount_text(bond.bonded.0 as nat),
                    },
                )
            } else {
                match queue {
                    Err(f) => refused(records, f),
                    Ok(queue) => if queue.len() >= params.max_unbonding_entries {
                        refused(records, StakingFault::TooManyUnbondingEntries)
                    } else {
                        Outcome {
                            result: Ok(()),
                            records: with_queue(
                                with_bond(
                                    records,
                                    BondView {
                                        bonded: Amount((bond.bonded.0 - amount.0) as u128),
                                        ..bond
                                    },
                                ),
                                operator,
                                queue.push(
                                    Unbonding {
                                        amount,
                                        started_at: height,
                                        completes_at: release_time(now, params),
                                    },
                                ),
                            ),
                        }
                    },
                }
            },
        }
    }
}

/// Withdrawing what has matured. Where the module account cannot pay it out, the
/// entries have left the queue all the same.
pub open spec fn withdrawal(records: Records, operator: Address, now: Timestamp) -> Outcome<
    Amount,
> {
    match queue_in(records, operator) {
        Err(f) => refused(records, f),
        Ok(queue) => {
            let released = queued(entries_due(queue, now, true));
            if entries_due(queue, now, true).len() == 0 {
                refused(records, StakingFault::NothingMatured)
            } else if released > u128::MAX {
                refused(records, StakingFault::ZeroAmount)
            } else {
                let written = with_queue(records, operator, entries_due(queue, now, false));
                if released == 0 {
                    Outcome { result: Ok(Amount(0)), records: written }
                } else {
                    match transferred(
                        written,
                        staking_address(),
                        operator,
                        "afri"@,
                        Amount(released as u128),
                    ) {
                        Err(f) => refused(written, StakingFault::Bank(f)),
                        Ok(paid) => Outcome {
                            result: Ok(Amount(released as u128)),
                            records: paid,
                        },
                    }
                }
            }
        },
    }
}

/// Slashing and jailing an operator. Where the module account cannot cover what is
/// destroyed, the operator is jailed and charged all the same.
pub open spec fn slashing(
    records: Records,
    operator: Address,
    infraction: Height,
    now: Height,
) -> Outcome<Amount> {
    match (bond_in(records, operator), queue_in(records, operator)) {
        (Err(f), _) => refused(records, f),
        (Ok(None), _) => refused(records, StakingFault::NoSuchBond),
        (Ok(Some(bond)), queue) => if bond.jailed {
            refused(records, StakingFault::AlreadyJailed)
        } else {
            match queue {
                Err(f) => refused(records, f),
                Ok(queue) => {
                    let burned = slice_of(bond.bonded).0 + taken_from_all(queue, infraction);
                    if burned > u128::MAX {
                        refused(records, StakingFault::ZeroAmount)
                    } else {
                        let written = with_queue(
                            with_bond(
                                records,
                                BondView {
                                    bonded: Amount(
                                        (bond.bonded.0 - slice_of(bond.bonded).0) as u128,
                                    ),
                                    jailed: true,
                                    jailed_at: Some(now),
                                    ..bond
                                },
                            ),
                            operator,
                            left_of_all(queue, infraction),
                        );
                        if burned == 0 {
                            Outcome { result: Ok(Amount(0)), records: written }
                        } else {
                            match destroyed(
                                written,
                                staking_address(),
                                "afri"@,
                                Amount(burned as u128),
                            ) {
                                Err(f) => refused(written, StakingFault::Bank(f)),
                                Ok(after) => Outcome {
                                    result: Ok(Amount(burned as u128)),
                                    records: after,
                                },
                            }
                        }
                    }
                },
            }
        },
    }
}

/// Releasing a jailed operator.
pub open spec fn unjailing(records: Records, operator: Address) -> Outcome<()> {
    match bond_in(records, operator) {
        Err(f) => refused(records, f),
        Ok(None) => refused(records, StakingFault::NoSuchBond),
        Ok(Some(bond)) => Outcome {
            result: Ok(()),
            records: with_bond(records, BondView { jailed: false, jailed_at: None, ..bond }),
        },
    }
}

/// Whether evidence shows one validator of a set signing two conflicting votes: the
/// same slot, different content, and both signatures genuine.
pub open spec fn equivocates(evidence: EquivocationView, set: Seq<ValidatorView>) -> bool {
    let (a, b) = (evidence.first, evidence.second);
    &&& a.vote.validator == evidence.validator
    &&& b.vote.validator == evidence.validator
    &&& a.vote.height == b.vote.height
    &&& a.vote.round == b.vote.round
    &&& a.vote.vote_type == b.vote.vote_type
    &&& a.vote.block_id != b.vote.block_id
    &&& match validator_at(set, evidence.validator) {
        Some(v) => {
            &&& signed_by(v.public_key, Domain::VoteSignDoc, a.vote.document(), a.signature)
            &&& signed_by(v.public_key, Domain::VoteSignDoc, b.vote.document(), b.signature)
        },
        None => false,
    }
}

/// Whether this evidence really shows one validator signing two conflicting votes.
///
/// Checked rather than trusted: anyone can build an [`Equivocation`].
pub fn proves_equivocation(evidence: &Equivocation, set: &ValidatorSet) -> (b: bool)
    ensures
        b == equivocates(evidence.deep_view(), set@),
{
    let a = &evidence.first;
    let b = &evidence.second;
    if a.vote.validator != evidence.validator || b.vote.validator != evidence.validator {
        return false;
    }
    let validator = match set.get(&evidence.validator) {
        Some(v) => v,
        None => {
            return false;
        },
    };
    if a.vote.height.0 != b.vote.height.0 || a.vote.round.0 != b.vote.round.0 || a.vote.vote_type
        != b.vote.vote_type {
        return false;
    }
    let same_block = match (&a.vote.block_id, &b.vote.block_id) {
        (Some(x), Some(y)) => x.same(y),
        (None, None) => true,
        _ => false,
    };
    if same_block {
        return false;
    }
    let first = validator.public_key.verify(
        Domain::VoteSignDoc,
        a.vote.sign_doc().as_slice(),
        &a.signature,
    );
    let second = validator.public_key.verify(
        Domain::VoteSignDoc,
        b.vote.sign_doc().as_slice(),
        &b.signature,
    );
    first.is_ok() && second.is_ok()
}

proof fn lemma_fraction(n: int, bps: int)
    requires
        0 <= n,
        0 <= bps <= 10_000,
    ensures
        n * bps / 10_000 == (n / 10_000) * bps + (n % 10_000) * bps / 10_000,
        0 <= n * bps / 10_000 <= n,
        0 <= (n / 10_000) * bps <= n,
        0 <= (n % 10_000) * bps <= 9_999 * 10_000,
{
    let (q, m) = (n / 10_000, n % 10_000);
    assert(n * bps == 10_000 * (q * bps) + m * bps) by (nonlinear_arith)
        requires
            n == 10_000 * q + m,
    ;
    assert(0 <= q * bps <= q * 10_000) by (nonlinear_arith)
        requires
            0 <= q,
            0 <= bps <= 10_000,
    ;
    assert(0 <= m * bps <= m * 10_000) by (nonlinear_arith)
        requires
            0 <= m,
            0 <= bps <= 10_000,
    ;
}

/// `amount * bps / 10_000`, rounded down. The whole ten-thousandths and what is left of
/// them are scaled apart, so that no product outgrows the amount.
fn fraction(amount: Amount, bps: u128) -> (r: Amount)
    requires
        bps <= 10_000,
    ensures
        r.0 == amount.0 * bps / 10_000,
        r == fraction_of(amount, bps),
        r.0 <= amount.0,
{
    proof {
        lemma_fraction(amount.0 as int, bps as int);
    }
    Amount((amount.0 / 10_000) * bps + (amount.0 % 10_000) * bps / 10_000)
}

/// Slashing takes exactly its share of an amount, rounded down, however large the amount
/// is, and never more than the amount.
pub proof fn law_slashing_takes_its_share(amount: Amount)
    ensures
        slice_of(amount).0 == amount.0 * SLASH_EQUIVOCATION_BPS / 10_000,
        slice_of(amount).0 <= amount.0,
{
    lemma_fraction(amount.0 as int, SLASH_EQUIVOCATION_BPS as int);
}

proof fn lemma_queued_grows(queue: Seq<Unbonding>, k: int)
    requires
        0 <= k <= queue.len(),
    ensures
        queued(queue.take(k)) <= queued(queue),
    decreases queue.len() - k,
{
    if k == queue.len() {
        assert(queue.take(k) =~= queue);
    } else {
        assert(queue.take(k + 1).drop_last() =~= queue.take(k));
        lemma_queued_grows(queue, k + 1);
    }
}

proof fn lemma_taken_grows(queue: Seq<Unbonding>, infraction: Height, k: int)
    requires
        0 <= k <= queue.len(),
    ensures
        taken_from_all(queue.take(k), infraction) <= taken_from_all(queue, infraction),
    decreases queue.len() - k,
{
    if k == queue.len() {
        assert(queue.take(k) =~= queue);
    } else {
        assert(queue.take(k + 1).drop_last() =~= queue.take(k));
        lemma_taken_grows(queue, infraction, k + 1);
    }
}

/// The sum of what is queued, if it fits.
fn sum_queued(queue: &Vec<Unbonding>) -> (r: Option<u128>)
    ensures
        match r {
            Some(n) => n == queued(queue@),
            None => queued(queue@) > u128::MAX,
        },
{
    let mut sum: u128 = 0;
    let mut i: usize = 0;
    while i < queue.len()
        invariant
            i <= queue@.len(),
            sum == queued(queue@.take(i as int)),
        decreases queue@.len() - i,
    {
        proof {
            assert(queue@.take(i as int + 1).drop_last() =~= queue@.take(i as int));
            lemma_queued_grows(queue@, i as int + 1);
        }
        sum = match sum.checked_add(queue[i].amount.0) {
            Some(n) => n,
            None => {
                return None;
            },
        };
        i += 1;
    }
    assert(queue@.take(queue@.len() as int) =~= queue@);
    Some(sum)
}

/// Part a queue into what is due and what is not.
fn partition(queue: &Vec<Unbonding>, now: Timestamp) -> (r: (Vec<Unbonding>, Vec<Unbonding>))
    ensures
        r.0@ == entries_due(queue@, now, true),
        r.1@ == entries_due(queue@, now, false),
{
    let mut due: Vec<Unbonding> = Vec::new();
    let mut pending: Vec<Unbonding> = Vec::new();
    let mut i: usize = 0;
    while i < queue.len()
        invariant
            i <= queue@.len(),
            due@ == entries_due(queue@.take(i as int), now, true),
            pending@ == entries_due(queue@.take(i as int), now, false),
        decreases queue@.len() - i,
    {
        assert(queue@.take(i as int + 1).drop_last() =~= queue@.take(i as int));
        let entry: Unbonding = queue[i];
        if entry.matured(now) {
            due.push(entry);
        } else {
            pending.push(entry);
        }
        i += 1;
    }
    assert(queue@.take(queue@.len() as int) =~= queue@);
    (due, pending)
}

/// Charge a queue for an infraction, returning what it comes to if that fits.
fn charge(queue: &mut Vec<Unbonding>, infraction: Height) -> (r: Option<u128>)
    ensures
        match r {
            Some(n) => n == taken_from_all(old(queue)@, infraction) && final(queue)@
                == left_of_all(old(queue)@, infraction),
            None => taken_from_all(old(queue)@, infraction) > u128::MAX,
        },
{
    let ghost start = queue@;
    let mut sum: u128 = 0;
    let mut i: usize = 0;
    while i < queue.len()
        invariant
            i <= queue@.len(),
            queue@.len() == start.len(),
            start == old(queue)@,
            sum == taken_from_all(start.take(i as int), infraction),
            forall|k: int| 0 <= k < i ==> #[trigger] queue@[k] == left_of(start[k], infraction),
            forall|k: int| i <= k < queue@.len() ==> #[trigger] queue@[k] == start[k],
        decreases queue@.len() - i,
    {
        proof {
            assert(start.take(i as int + 1).drop_last() =~= start.take(i as int));
            lemma_taken_grows(start, infraction, i as int + 1);
            law_slashing_takes_its_share(start[i as int].amount);
        }
        let entry: Unbonding = queue[i];
        if entry.covers(infraction) {
            let take: Amount = fraction(entry.amount, SLASH_EQUIVOCATION_BPS as u128);
            let left = Unbonding {
                amount: Amount(entry.amount.0 - take.0),
                started_at: entry.started_at,
                completes_at: entry.completes_at,
            };
            queue.set(i, left);
            sum = match sum.checked_add(take.0) {
                Some(n) => n,
                None => {
                    return None;
                },
            };
        }
        i += 1;
    }
    proof {
        assert(start.take(start.len() as int) =~= start);
        assert(queue@ =~= left_of_all(start, infraction));
    }
    Some(sum)
}

/// Staking operations over a borrowed store.
pub struct Staking<'a, S: KeyValueStore> {
    /// Where everything is kept.
    pub store: &'a mut S,
    /// The limits in force.
    pub params: StakingParams,
}

/// Read and decode a record.
fn read_record<S: KeyValueStore, T: Decode>(store: &S, key: &StoreKey) -> (r: Result<
    Option<T>,
    StakingError,
>)
    ensures
        match stored::<T>(store.entries(), key@) {
            Ok(v) => r matches Ok(x) && x.deep_view() == v,
            Err(f) => r matches Err(e) && e.deep_view() == f,
        },
{
    match store.get(key) {
        None => Ok(None),
        Some(bytes) => {
            assert(bytes.deep_view() =~= bytes@);
            match decode_exact::<T>(bytes.as_slice()) {
                Ok(v) => Ok(Some(v)),
                Err(e) => Err(corrupt("bond", e.to_string())),
            }
        },
    }
}

fn corrupt(what: &str, reason: String) -> (e: StakingError)
    ensures
        e.deep_view() == StakingFault::State(
            StateFault::Corrupt { key: what@, reason: reason@ },
        ),
{
    StakingError::State(StateError::Corrupt { key: String::from_str(what), reason })
}

impl<'a, S: KeyValueStore> Staking<'a, S> {
    /// The records of the store.
    pub open spec fn records(self) -> Records {
        self.store.entries()
    }

    /// Open the module with default parameters.
    pub fn new(store: &'a mut S) -> (r: Self)
        ensures
            r.records() == old(store).entries(),
            *final(r.store) == *final(store),
            r.params == (StakingParams {
                min_bond: Amount(10_000_000_000_000),
                max_validators: 100,
                max_candidates: 1_000,
                max_unbonding_entries: 16,
                unbonding_ms: UNBONDING_MS,
                max_single_share_bps: 1_000,
            }),
    {
        Staking { store, params: StakingParams::default() }
    }

    /// Open the module with explicit parameters.
    pub fn with_params(store: &'a mut S, params: StakingParams) -> (r: Self)
        ensures
            r.records() == old(store).entries(),
            *final(r.store) == *final(store),
            r.params == params,
    {
        Staking { store, params }
    }

    /// The parameters in force.
    pub fn params(&self) -> (p: &StakingParams)
        ensures
            *p == self.params,
    {
        &self.params
    }

    /// Read one operator's bond.
    pub fn bond_of(&self, operator: &Address) -> (r: Result<Option<Bond>, StakingError>)
        ensures
            match bond_in(self.records(), *operator) {
                Ok(v) => r matches Ok(x) && x.deep_view() == v,
                Err(f) => r matches Err(e) && e.deep_view() == f,
            },
    {
        read_record::<S, Bond>(&*self.store, &StoreKey::bond(operator))
    }

    /// Read one operator's unbonding queue.
    pub fn unbonding_of(&self, operator: &Address) -> (r: Result<Vec<Unbonding>, StakingError>)
        ensures
            match queue_in(self.records(), *operator) {
                Ok(v) => r matches Ok(x) && x@ == v,
                Err(f) => r matches Err(e) && e.deep_view() == f,
            },
    {
        match read_record::<S, Vec<Unbonding>>(&*self.store, &StoreKey::unbonding(operator)) {
            Ok(Some(queue)) => {
                assert(queue.deep_view() =~= queue@);
                Ok(queue)
            },
            Ok(None) => Ok(Vec::new()),
            Err(e) => Err(e),
        }
    }

    /// Every operator holding a bond.
    pub fn candidates(&self) -> (r: Result<Vec<Address>, StakingError>)
        ensures
            match candidates_in(self.records()) {
                Ok(v) => r matches Ok(x) && x@ == v,
                Err(f) => r matches Err(e) && e.deep_view() == f,
            },
    {
        match read_record::<S, Vec<Address>>(&*self.store, &StoreKey::bond_index()) {
            Ok(Some(list)) => {
                assert(list.deep_view() =~= list@);
                Ok(list)
            },
            Ok(None) => Ok(Vec::new()),
            Err(e) => Err(e),
        }
    }

    /// Every bond, in candidate-index order.
    pub fn bonds(&self) -> (r: Result<Vec<Bond>, StakingError>)
        ensures
            match bonds_in(self.records()) {
                Ok(v) => r matches Ok(x) && x.deep_view() == v,
                Err(f) => r matches Err(e) && e.deep_view() == f,
            },
    {
        let operators = self.candidates()?;
        let ghost records = self.records();
        let mut out: Vec<Bond> = Vec::new();
        let mut i: usize = 0;
        assert(out.deep_view() =~= Seq::empty());
        while i < operators.len()
            invariant
                i <= operators@.len(),
                records == self.records(),
                candidates_in(records) == Ok::<Seq<Address>, StakingFault>(operators@),
                bonds_of(records, operators@.take(i as int)) == Ok::<Seq<BondView>, StakingFault>(
                    out.deep_view(),
                ),
            decreases operators@.len() - i,
        {
            let ghost prefix = operators@.take(i as int + 1);
            assert(prefix.drop_last() =~= operators@.take(i as int));
            match self.bond_of(&operators[i]) {
                Err(e) => {
                    proof {
                        lemma_bonds_fail(records, operators@, i as int + 1);
                    }
                    return Err(e);
                },
                Ok(None) => {},
                Ok(Some(bond)) => {
                    let ghost done = out.deep_view();
                    let ghost view = bond.deep_view();
                    out.push(bond);
                    assert(out.deep_view() =~= done.push(view));
                },
            }
            i += 1;
        }
        assert(operators@.take(operators@.len() as int) =~= operators@);
        Ok(out)
    }

    /// Derive the active validator set.
    pub fn active_set(&self) -> (r: Result<ValidatorSet, StakingError>)
        ensures
            match active_in(self.records(), self.params) {
                Ok(v) => r matches Ok(x) && x@ == v,
                Err(f) => r matches Err(e) && e.deep_view() == f,
            },
    {
        let bonds = self.bonds()?;
        let list = bonds.as_slice();
        assert(list.deep_view() =~= bonds.deep_view());
        set::active_set(list, &self.params)
    }

    /// Lock stake and register as a validator candidate. The stake moves out of the
    /// operator's balance into the module account.
    pub fn bond(
        &mut self,
        operator: &Address,
        public_key: PublicKey,
        country: CountryCode,
        amount: Amount,
    ) -> (r: Result<(), StakingError>)
        ensures
            *final(final(self).store) == *final(old(self).store),
            final(self).params == old(self).params,
            comes_to(
                r,
                final(self).records(),
                bonding(
                    old(self).records(),
                    old(self).params,
                    *operator,
                    public_key@,
                    country@,
                    amount,
                ),
            ),
    {
        if amount.is_zero() {
            return Err(StakingError::ZeroAmount);
        }
        if amount.0 < self.params.min_bond.0 {
            return Err(
                StakingError::BelowMinimumBond {
                    got: amount.to_string(),
                    min: self.params.min_bond.to_string(),
                },
            );
        }
        if self.bond_of(operator)?.is_some() {
            return Err(StakingError::AlreadyBonded);
        }
        let mut index = self.candidates()?;
        if index.len() >= self.params.max_candidates {
            return Err(StakingError::CandidateSetFull);
        }
        let mut bank = Bank::new(&mut *self.store);
        match bank.transfer(operator, &staking_account(), &Denom::native(), amount) {
            Ok(()) => {},
            Err(e) => {
                return Err(StakingError::Bank(e));
            },
        }
        let bond = Bond::new(*operator, public_key, country, amount);
        self.write_bond(&bond);
        index.push(*operator);
        let sorted = sort_addresses(&index);
        self.write_index(&sorted);
        Ok(())
    }

    /// Add to an existing bond.
    pub fn add_stake(&mut self, operator: &Address, amount: Amount) -> (r: Result<
        (),
        StakingError,
    >)
        ensures
            *final(final(self).store) == *final(old(self).store),
            final(self).params == old(self).params,
            comes_to(
                r,
                final(self).records(),
                adding(old(self).records(), *operator, amount),
            ),
    {
        if amount.is_zero() {
            return Err(StakingError::ZeroAmount);
        }
        let mut bond = match self.bond_of(operator)? {
            Some(bond) => bond,
            None => {
                return Err(StakingError::NoSuchBond);
            },
        };
        let mut bank = Bank::new(&mut *self.store);
        match bank.transfer(operator, &staking_account(), &Denom::native(), amount) {
            Ok(()) => {},
            Err(e) => {
                return Err(StakingError::Bank(e));
            },
        }
        bond.bonded = match bond.bonded.0.checked_add(amount.0) {
            Some(n) => Amount(n),
            None => {
                return Err(StakingError::ZeroAmount);
            },
        };
        self.write_bond(&bond);
        Ok(())
    }

    /// Begin withdrawing stake. It leaves the active set immediately and the funds
    /// stay in the module account, still slashable, until the unbonding period has
    /// elapsed.
    pub fn unbond(
        &mut self,
        operator: &Address,
        amount: Amount,
        height: Height,
        now: Timestamp,
    ) -> (r: Result<(), StakingError>)
        ensures
            *final(final(self).store) == *final(old(self).store),
            final(self).params == old(self).params,
            comes_to(
                r,
                final(self).records(),
                unbonding(
                    old(self).records(),
                    old(self).params,
                    *operator,
                    amount,
                    height,
                    now,
                ),
            ),
    {
        if amount.is_zero() {
            return Err(StakingError::ZeroAmount);
        }
        let mut bond = match self.bond_of(operator)? {
            Some(bond) => bond,
            None => {
                return Err(StakingError::NoSuchBond);
            },
        };
        if amount.0 > bond.bonded.0 {
            return Err(
                StakingError::InsufficientBond {
                    requested: amount.to_string(),
                    bonded: bond.bonded.to_string(),
                },
            );
        }
        let mut queue = self.unbonding_of(operator)?;
        if queue.len() >= self.params.max_unbonding_entries {
            return Err(StakingError::TooManyUnbondingEntries);
        }
        bond.bonded = Amount(bond.bonded.0 - amount.0);
        queue.push(
            Unbonding {
                amount,
                started_at: height,
                completes_at: Timestamp(now.0.saturating_add(self.params.unbonding_ms)),
            },
        );
        self.write_bond(&bond);
        self.write_queue(operator, &queue);
        Ok(())
    }

    /// Withdraw every matured unbonding entry. Returns the amount released.
    pub fn withdraw(&mut self, operator: &Address, now: Timestamp) -> (r: Result<
        Amount,
        StakingError,
    >)
        ensures
            *final(final(self).store) == *final(old(self).store),
            final(self).params == old(self).params,
            comes_to(
                r,
                final(self).records(),
                withdrawal(old(self).records(), *operator, now),
            ),
    {
        let queue = self.unbonding_of(operator)?;
        let (matured, pending) = partition(&queue, now);
        if matured.len() == 0 {
            return Err(StakingError::NothingMatured);
        }
        let total: u128 = match sum_queued(&matured) {
            Some(n) => n,
            None => {
                return Err(StakingError::ZeroAmount);
            },
        };
        self.write_queue(operator, &pending);
        if total != 0 {
            let mut bank = Bank::new(&mut *self.store);
            match bank.transfer(&staking_account(), operator, &Denom::native(), Amount(total)) {
                Ok(()) => {},
                Err(e) => {
                    return Err(StakingError::Bank(e));
                },
            }
        }
        Ok(Amount(total))
    }

    /// Punish an operator for signing two conflicting votes.
    ///
    /// Destroys [`SLASH_EQUIVOCATION_BPS`] of the operator's bonded stake and of every
    /// unbonding entry that was still bonded at the infraction height, then jails
    /// them. Evidence that does not prove itself destroys nothing.
    pub fn slash_equivocation(
        &mut self,
        evidence: &Equivocation,
        set: &ValidatorSet,
        height: Height,
    ) -> (r: Result<Amount, StakingError>)
        ensures
            *final(final(self).store) == *final(old(self).store),
            final(self).params == old(self).params,
            comes_to(
                r,
                final(self).records(),
                if equivocates(evidence.deep_view(), set@) {
                    slashing(
                        old(self).records(),
                        evidence.validator,
                        evidence.first.vote.height,
                        height,
                    )
                } else {
                    refused(old(self).records(), StakingFault::NotEquivocation)
                },
            ),
    {
        if !proves_equivocation(evidence, set) {
            return Err(StakingError::NotEquivocation);
        }
        self.slash(&evidence.validator, evidence.first.vote.height, height)
    }

    /// Slash and jail an operator for an infraction committed at `infraction_height`.
    pub fn slash(
        &mut self,
        operator: &Address,
        infraction_height: Height,
        now_height: Height,
    ) -> (r: Result<Amount, StakingError>)
        ensures
            *final(final(self).store) == *final(old(self).store),
            final(self).params == old(self).params,
            comes_to(
                r,
                final(self).records(),
                slashing(old(self).records(), *operator, infraction_height, now_height),
            ),
    {
        let mut bond = match self.bond_of(operator)? {
            Some(bond) => bond,
            None => {
                return Err(StakingError::NoSuchBond);
            },
        };
        if bond.jailed {
            return Err(StakingError::AlreadyJailed);
        }
        let from_bond: Amount = fraction(bond.bonded, SLASH_EQUIVOCATION_BPS as u128);
        let mut queue = self.unbonding_of(operator)?;
        let from_queue: u128 = match charge(&mut queue, infraction_height) {
            Some(n) => n,
            None => {
                return Err(StakingError::ZeroAmount);
            },
        };
        let total: u128 = match from_bond.0.checked_add(from_queue) {
            Some(n) => n,
            None => {
                return Err(StakingError::ZeroAmount);
            },
        };
        proof {
            law_slashing_takes_its_share(bond.bonded);
        }
        bond.bonded = Amount(bond.bonded.0 - from_bond.0);
        bond.jailed = true;
        bond.jailed_at = Some(now_height);
        self.write_bond(&bond);
        self.write_queue(operator, &queue);
        if total != 0 {
            let mut bank = Bank::new(&mut *self.store);
            match bank.slash_native(&staking_account(), Amount(total)) {
                Ok(()) => {},
                Err(e) => {
                    return Err(StakingError::Bank(e));
                },
            }
        }
        Ok(Amount(total))
    }

    /// Release a jailed operator back into the candidate set. Governance-only: an
    /// operator who could unjail themselves is not jailed.
    pub fn unjail(&mut self, operator: &Address) -> (r: Result<(), StakingError>)
        ensures
            *final(final(self).store) == *final(old(self).store),
            final(self).params == old(self).params,
            comes_to(r, final(self).records(), unjailing(old(self).records(), *operator)),
    {
        let mut bond = match self.bond_of(operator)? {
            Some(bond) => bond,
            None => {
                return Err(StakingError::NoSuchBond);
            },
        };
        bond.jailed = false;
        bond.jailed_at = None;
        self.write_bond(&bond);
        Ok(())
    }

    fn write_bond(&mut self, bond: &Bond)
        ensures
            *final(final(self).store) == *final(old(self).store),
            final(self).params == old(self).params,
            final(self).records() == with_bond(old(self).records(), bond.deep_view()),
    {
        self.store.set_encoded(&StoreKey::bond(&bond.operator), bond);
    }

    fn write_queue(&mut self, operator: &Address, queue: &Vec<Unbonding>)
        ensures
            *final(final(self).store) == *final(old(self).store),
            final(self).params == old(self).params,
            final(self).records() == with_queue(old(self).records(), *operator, queue@),
    {
        let key = StoreKey::unbonding(operator);
        assert(queue.deep_view() =~= queue@);
        if queue.len() == 0 {
            let _ = self.store.delete(&key);
        } else {
            self.store.set_encoded(&key, queue);
        }
    }

    fn write_index(&mut self, list: &Vec<Address>)
        ensures
            *final(final(self).store) == *final(old(self).store),
            final(self).params == old(self).params,
            final(self).records() == with_candidates(old(self).records(), list@),
    {
        assert(list.deep_view() =~= list@);
        self.store.set_encoded(&StoreKey::bond_index(), list);
    }
}

proof fn lemma_bonds_fail(records: Records, operators: Seq<Address>, k: int)
    requires
        0 <= k <= operators.len(),
        bonds_of(records, operators.take(k)) is Err,
    ensures
        bonds_of(records, operators) == bonds_of(records, operators.take(k)),
    decreases operators.len() - k,
{
    if k == operators.len() {
        assert(operators.take(k) =~= operators);
    } else {
        assert(operators.take(k + 1).drop_last() =~= operators.take(k));
        lemma_bonds_fail(records, operators, k + 1);
    }
}

} // verus!
