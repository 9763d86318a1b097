//! Balances and supply.
//!
//! Amounts are stored per account and denomination, with the total supply of each
//! denomination beside them.

use crate::crypto::address::Address;
use crate::crypto::hash::Hash32;
use crate::primitives::amount::Amount;
use crate::primitives::codec::{law_decode_exact_inverts_encode, Canonical, Encode};
use crate::primitives::denom::Denom;
use crate::state::shape::path;
use crate::state::store::{
    balance_key, supply_key, typed, KeyValueStore, StateError, StateFault, StoreKey,
};
use vstd::prelude::*;

verus! {

/// Why the bank refused.
#[derive(Debug, Clone, PartialEq, Eq)]
pub enum BankError {
    /// The account holds less than was asked for.
    InsufficientBalance,
    /// An amount would leave its range.
    Overflow,
    /// Less is in circulation than would be destroyed.
    SupplyTooSmall,
    /// Corrupt state.
    State(StateError),
}

/// The mathematical view of a [`BankError`].
pub enum BankFault {
    InsufficientBalance,
    Overflow,
    SupplyTooSmall,
    State(StateFault),
}

impl DeepView for BankError {
    type V = BankFault;

    open spec fn deep_view(&self) -> BankFault {
        match *self {
            BankError::InsufficientBalance => BankFault::InsufficientBalance,
            BankError::Overflow => BankFault::Overflow,
            BankError::SupplyTooSmall => BankFault::SupplyTooSmall,
            BankError::State(e) => BankFault::State(e.deep_view()),
        }
    }
}

impl BankFault {
    /// The sentence that describes this error.
    pub open spec fn text(self) -> Seq<char> {
        match self {
            BankFault::InsufficientBalance => "insufficient balance"@,
            BankFault::Overflow => "amount out of range"@,
            BankFault::SupplyTooSmall => "less is in circulation than would be destroyed"@,
            BankFault::State(e) => e.text(),
        }
    }
}

impl BankError {
    /// The sentence that describes this error.
    pub fn to_string(&self) -> (s: String)
        ensures
            s@ == self.deep_view().text(),
    {
        match self {
            BankError::InsufficientBalance => String::from_str("insufficient balance"),
            BankError::Overflow => String::from_str("amount out of range"),
            BankError::SupplyTooSmall => String::from_str(
                "less is in circulation than would be destroyed",
            ),
            BankError::State(e) => e.to_string(),
        }
    }
}

/// The amount stored under a key; none stored means zero.
pub open spec fn amount_at(entries: Map<Hash32, Seq<u8>>, key: Seq<u8>) -> Result<
    Amount,
    BankFault,
> {
    match typed::<Amount>(entries, key) {
        Ok(Some(a)) => Ok(a),
        Ok(None) => Ok(Amount(0)),
        Err(f) => Err(BankFault::State(f)),
    }
}

/// The entries with an amount stored under a key.
pub open spec fn with_amount(
    entries: Map<Hash32, Seq<u8>>,
    key: Seq<u8>,
    units: int,
) -> Map<Hash32, Seq<u8>> {
    entries.insert(path(key), Amount::bytes_of(Amount(units as u128)))
}

/// Moving an amount between two accounts.
pub open spec fn transferred(
    entries: Map<Hash32, Seq<u8>>,
    from: Address,
    to: Address,
    denom: Seq<char>,
    amount: Amount,
) -> Result<Map<Hash32, Seq<u8>>, BankFault> {
    let source_key = balance_key(from, denom);
    let target_key = balance_key(to, denom);
    match amount_at(entries, source_key) {
        Err(f) => Err(f),
        Ok(source) => if source.0 < amount.0 {
            Err(BankFault::InsufficientBalance)
        } else if from == to {
            Ok(entries)
        } else {
            match amount_at(entries, target_key) {
                Err(f) => Err(f),
                Ok(target) => if target.0 + amount.0 > u128::MAX {
                    Err(BankFault::Overflow)
                } else {
                    Ok(
                        with_amount(
                            with_amount(entries, source_key, source.0 - amount.0),
                            target_key,
                            target.0 + amount.0,
                        ),
                    )
                },
            }
        },
    }
}

/// Destroying an amount that an account holds: its balance and the supply fall.
pub open spec fn destroyed(
    entries: Map<Hash32, Seq<u8>>,
    account: Address,
    denom: Seq<char>,
    amount: Amount,
) -> Result<Map<Hash32, Seq<u8>>, BankFault> {
    match amount_at(entries, balance_key(account, denom)) {
        Err(f) => Err(f),
        Ok(held) => if held.0 < amount.0 {
            Err(BankFault::InsufficientBalance)
        } else {
            match amount_at(entries, supply_key(denom)) {
                Err(f) => Err(f),
                Ok(supply) => if supply.0 < amount.0 {
                    Err(BankFault::SupplyTooSmall)
                } else {
                    Ok(
                        with_amount(
                            with_amount(
                                entries,
                                balance_key(account, denom),
                                held.0 - amount.0,
                            ),
                            supply_key(denom),
                            supply.0 - amount.0,
                        ),
                    )
                },
            }
        },
    }
}

/// Creating an amount in an account: its balance and the supply grow.
pub open spec fn allocated(
    entries: Map<Hash32, Seq<u8>>,
    account: Address,
    denom: Seq<char>,
    amount: Amount,
) -> Result<Map<Hash32, Seq<u8>>, BankFault> {
    match amount_at(entries, balance_key(account, denom)) {
        Err(f) => Err(f),
        Ok(held) => if held.0 + amount.0 > u128::MAX {
            Err(BankFault::Overflow)
        } else {
            match amount_at(entries, supply_key(denom)) {
                Err(f) => Err(f),
                Ok(supply) => if supply.0 + amount.0 > u128::MAX {
                    Err(BankFault::Overflow)
                } else {
                    Ok(
                        with_amount(
                            with_amount(
                                entries,
                                balance_key(account, denom),
                                held.0 + amount.0,
                            ),
                            supply_key(denom),
                            supply.0 + amount.0,
                        ),
                    )
                },
            }
        },
    }
}

/// Whether a result and the entries left behind are those of an operation that
/// changes nothing where it fails.
pub open spec fn carried_out(
    r: Result<(), BankError>,
    before: Map<Hash32, Seq<u8>>,
    after: Map<Hash32, Seq<u8>>,
    want: Result<Map<Hash32, Seq<u8>>, BankFault>,
) -> bool {
    match want {
        Ok(entries) => r is Ok && after == entries,
        Err(f) => (r matches Err(e) && e.deep_view() == f) && after == before,
    }
}

/// The bank over a borrowed store.
pub struct Bank<'a, S: KeyValueStore> {
    /// Where the amounts are kept.
    pub store: &'a mut S,
}

impl<'a, S: KeyValueStore> Bank<'a, S> {
    /// The entries of the store.
    pub open spec fn entries(self) -> Map<Hash32, Seq<u8>> {
        self.store.entries()
    }

    /// Open the bank.
    pub fn new(store: &'a mut S) -> (r: Self)
        ensures
            r.entries() == old(store).entries(),
            *final(r.store) == *final(store),
    {
        Bank { store }
    }

    fn amount(&self, key: &StoreKey) -> (r: Result<Amount, BankError>)
        ensures
            match amount_at(self.entries(), key@) {
                Ok(a) => r == Ok::<Amount, BankError>(a),
                Err(f) => r matches Err(e) && e.deep_view() == f,
            },
    {
        match self.store.get_decoded::<Amount>(key) {
            Ok(Some(a)) => Ok(a),
            Ok(None) => Ok(Amount::zero()),
            Err(e) => Err(BankError::State(e)),
        }
    }

    /// How much an account holds.
    pub fn balance(&self, address: &Address, denom: &Denom) -> (r: Result<Amount, BankError>)
        ensures
            match amount_at(self.entries(), balance_key(*address, denom@)) {
                Ok(a) => r == Ok::<Amount, BankError>(a),
                Err(f) => r matches Err(e) && e.deep_view() == f,
            },
    {
        self.amount(&StoreKey::balance(address, denom))
    }

    /// How much of a denomination is in circulation.
    pub fn total_supply(&self, denom: &Denom) -> (r: Result<Amount, BankError>)
        ensures
            match amount_at(self.entries(), supply_key(denom@)) {
                Ok(a) => r == Ok::<Amount, BankError>(a),
                Err(f) => r matches Err(e) && e.deep_view() == f,
            },
    {
        self.amount(&StoreKey::supply(denom))
    }

    /// Move an amount from one account to another.
    pub fn transfer(
        &mut self,
        from: &Address,
        to: &Address,
        denom: &Denom,
        amount: Amount,
    ) -> (r: Result<(), BankError>)
        ensures
            *final(final(self).store) == *final(old(self).store),
            carried_out(
                r,
                old(self).entries(),
                final(self).entries(),
                transferred(old(self).entries(), *from, *to, denom@, amount),
            ),
    {
        let source_key = StoreKey::balance(from, denom);
        let source: Amount = self.amount(&source_key)?;
        if source.0 < amount.0 {
            return Err(BankError::InsufficientBalance);
        }
        if *from == *to {
            return Ok(());
        }
        let target_key = StoreKey::balance(to, denom);
        let target: Amount = self.amount(&target_key)?;
        let grown: u128 = match target.0.checked_add(amount.0) {
            Some(n) => n,
            None => {
                return Err(BankError::Overflow);
            },
        };
        self.store.set_encoded(&source_key, &Amount(source.0 - amount.0));
        self.store.set_encoded(&target_key, &Amount(grown));
        Ok(())
    }

    /// Destroy native units that an account holds.
    pub fn slash_native(&mut self, account: &Address, amount: Amount) -> (r: Result<
        (),
        BankError,
    >)
        ensures
            *final(final(self).store) == *final(old(self).store),
            carried_out(
                r,
                old(self).entries(),
                final(self).entries(),
                destroyed(old(self).entries(), *account, "afri"@, amount),
            ),
    {
        let denom = Denom::native();
        let key = StoreKey::balance(account, &denom);
        let held: Amount = self.amount(&key)?;
        if held.0 < amount.0 {
            return Err(BankError::InsufficientBalance);
        }
        let supply_of = StoreKey::supply(&denom);
        let supply: Amount = self.amount(&supply_of)?;
        if supply.0 < amount.0 {
            return Err(BankError::SupplyTooSmall);
        }
        self.store.set_encoded(&key, &Amount(held.0 - amount.0));
        self.store.set_encoded(&supply_of, &Amount(supply.0 - amount.0));
        Ok(())
    }

    /// Create an amount at genesis.
    pub fn genesis_allocate(&mut self, account: &Address, denom: &Denom, amount: Amount) -> (r:
        Result<(), BankError>)
        ensures
            *final(final(self).store) == *final(old(self).store),
            carried_out(
                r,
                old(self).entries(),
                final(self).entries(),
                allocated(old(self).entries(), *account, denom@, amount),
            ),
    {
        let key = StoreKey::balance(account, denom);
        let held: Amount = self.amount(&key)?;
        let grown: u128 = match held.0.checked_add(amount.0) {
            Some(n) => n,
            None => {
                return Err(BankError::Overflow);
            },
        };
        let supply_of = StoreKey::supply(denom);
        let supply: Amount = self.amount(&supply_of)?;
        let total: u128 = match supply.0.checked_add(amount.0) {
            Some(n) => n,
            None => {
                return Err(BankError::Overflow);
            },
        };
        self.store.set_encoded(&key, &Amount(grown));
        self.store.set_encoded(&supply_of, &Amount(total));
        Ok(())
    }
}

/// What is stored under a key reads back.
pub proof fn lemma_amount_reads_back(entries: Map<Hash32, Seq<u8>>, key: Seq<u8>, units: int)
    requires
        0 <= units <= u128::MAX,
    ensures
        amount_at(with_amount(entries, key, units), key) == Ok::<Amount, BankFault>(
            Amount(units as u128),
        ),
{
    law_decode_exact_inverts_encode::<Amount>(Amount(units as u128));
}

/// What is stored under another key stays, where the keys' paths do not clash.
pub proof fn lemma_other_amounts_stay(
    entries: Map<Hash32, Seq<u8>>,
    key: Seq<u8>,
    units: int,
    other: Seq<u8>,
)
    requires
        path(key) != path(other),
    ensures
        amount_at(with_amount(entries, key, units), other) == amount_at(entries, other),
{
}

/// A transfer creates and destroys nothing: what one account loses the other
/// gains, and every other amount, the supply among them, is left as it was. Keys
/// whose paths clash are left out.
pub proof fn law_transfers_conserve(
    entries: Map<Hash32, Seq<u8>>,
    from: Address,
    to: Address,
    denom: Seq<char>,
    amount: Amount,
    other: Seq<u8>,
)
    requires
        transferred(entries, from, to, denom, amount) is Ok,
        from != to ==> path(balance_key(from, denom)) != path(balance_key(to, denom)),
        path(other) != path(balance_key(from, denom)),
        path(other) != path(balance_key(to, denom)),
    ensures
        ({
            let after = transferred(entries, from, to, denom, amount)->Ok_0;
            let (a, b) = (balance_key(from, denom), balance_key(to, denom));
            &&& from == to ==> after == entries
            &&& from != to ==> amount_at(after, a) is Ok && amount_at(after, b) is Ok
                && amount_at(after, a)->Ok_0.0 == amount_at(entries, a)->Ok_0.0 - amount.0
                && amount_at(after, b)->Ok_0.0 == amount_at(entries, b)->Ok_0.0 + amount.0
            &&& amount_at(after, other) == amount_at(entries, other)
        }),
{
    if from != to {
        let (a, b) = (balance_key(from, denom), balance_key(to, denom));
        let source = amount_at(entries, a)->Ok_0;
        let target = amount_at(entries, b)->Ok_0;
        let middle = with_amount(entries, a, source.0 - amount.0);
        lemma_amount_reads_back(entries, a, source.0 - amount.0);
        lemma_other_amounts_stay(middle, b, target.0 + amount.0, a);
        lemma_amount_reads_back(middle, b, target.0 + amount.0);
        lemma_other_amounts_stay(entries, a, source.0 - amount.0, other);
        lemma_other_amounts_stay(middle, b, target.0 + amount.0, other);
    }
}

/// A transfer comes off exactly where the sender holds the amount and the receiver can
/// take it.
pub proof fn law_when_a_transfer_comes_off(
    entries: Map<Hash32, Seq<u8>>,
    from: Address,
    to: Address,
    denom: Seq<char>,
    amount: Amount,
)
    ensures
        transferred(entries, from, to, denom, amount) is Ok <==> {
            &&& amount_at(entries, balance_key(from, denom)) matches Ok(held) && held.0
                >= amount.0
            &&& from == to || (amount_at(entries, balance_key(to, denom)) matches Ok(has) && has.0
                + amount.0 <= u128::MAX)
        },
        amount_at(entries, balance_key(from, denom)) matches Ok(held) ==> (held.0 < amount.0
            ==> transferred(entries, from, to, denom, amount) == Err::<
            Map<Hash32, Seq<u8>>,
            BankFault,
        >(BankFault::InsufficientBalance)),
{
}

/// An amount that was never stored is zero, and one that was stored is that amount.
pub proof fn law_what_is_stored_is_what_is_held(
    entries: Map<Hash32, Seq<u8>>,
    key: Seq<u8>,
    amount: Amount,
)
    ensures
        !entries.dom().contains(path(key)) ==> amount_at(entries, key) == Ok::<Amount, BankFault>(
            Amount(0),
        ),
        amount_at(entries.insert(path(key), Amount::bytes_of(amount)), key) == Ok::<
            Amount,
            BankFault,
        >(amount),
{
    law_decode_exact_inverts_encode::<Amount>(amount);
}

/// Destroying takes the amount from what the account holds and from the supply, and
/// touches no other amount; it comes off exactly where both have it. Keys whose paths
/// clash are left out.
pub proof fn law_destroying_lowers_holding_and_supply(
    entries: Map<Hash32, Seq<u8>>,
    account: Address,
    denom: Seq<char>,
    amount: Amount,
    other: Seq<u8>,
)
    requires
        path(balance_key(account, denom)) != path(supply_key(denom)),
        path(other) != path(balance_key(account, denom)),
        path(other) != path(supply_key(denom)),
    ensures
        ({
            let (b, t) = (balance_key(account, denom), supply_key(denom));
            let out = destroyed(entries, account, denom, amount);
            &&& out is Ok <==> {
                &&& amount_at(entries, b) matches Ok(held) && held.0 >= amount.0
                &&& amount_at(entries, t) matches Ok(supply) && supply.0 >= amount.0
            }
            &&& out matches Ok(after) ==> {
                &&& amount_at(after, b) is Ok
                &&& amount_at(after, b)->Ok_0.0 == amount_at(entries, b)->Ok_0.0 - amount.0
                &&& amount_at(after, t) is Ok
                &&& amount_at(after, t)->Ok_0.0 == amount_at(entries, t)->Ok_0.0 - amount.0
                &&& amount_at(after, other) == amount_at(entries, other)
            }
        }),
{
    let (b, t) = (balance_key(account, denom), supply_key(denom));
    if destroyed(entries, account, denom, amount) is Ok {
        let held = amount_at(entries, b)->Ok_0;
        let supply = amount_at(entries, t)->Ok_0;
        let middle = with_amount(entries, b, held.0 - amount.0);
        lemma_amount_reads_back(entries, b, held.0 - amount.0);
        lemma_other_amounts_stay(middle, t, supply.0 - amount.0, b);
        lemma_amount_reads_back(middle, t, supply.0 - amount.0);
        lemma_other_amounts_stay(entries, b, held.0 - amount.0, other);
        lemma_other_amounts_stay(middle, t, supply.0 - amount.0, other);
    }
}

/// Allocating adds the amount to what the account holds and to the supply, and touches
/// no other amount; it comes off exactly where both sums can be expressed. Keys whose
/// paths clash are left out.
pub proof fn law_allocating_raises_holding_and_supply(
    entries: Map<Hash32, Seq<u8>>,
    account: Address,
    denom: Seq<char>,
    amount: Amount,
    other: Seq<u8>,
)
    requires
        path(balance_key(account, denom)) != path(supply_key(denom)),
        path(other) != path(balance_key(account, denom)),
        path(other) != path(supply_key(denom)),
    ensures
        ({
            let (b, t) = (balance_key(account, denom), supply_key(denom));
            let out = allocated(entries, account, denom, amount);
            &&& out is Ok <==> {
                &&& amount_at(entries, b) matches Ok(held) && held.0 + amount.0 <= u128::MAX
                &&& amount_at(entries, t) matches Ok(supply) && supply.0 + amount.0 <= u128::MAX
            }
            &&& out matches Ok(after) ==> {
                &&& amount_at(after, b) is Ok
                &&& amount_at(after, b)->Ok_0.0 == amount_at(entries, b)->Ok_0.0 + amount.0
                &&& amount_at(after, t) is Ok
                &&& amount_at(after, t)->Ok_0.0 == amount_at(entries, t)->Ok_0.0 + amount.0
                &&& amount_at(after, other) == amount_at(entries, other)
            }
        }),
{
    let (b, t) = (balance_key(account, denom), supply_key(denom));
    if allocated(entries, account, denom, amount) is Ok {
        let held = amount_at(entries, b)->Ok_0;
        let supply = amount_at(entries, t)->Ok_0;
        let middle = with_amount(entries, b, held.0 + amount.0);
        lemma_amount_reads_back(entries, b, held.0 + amount.0);
        lemma_other_amounts_stay(middle, t, supply.0 + amount.0, b);
        lemma_amount_reads_back(middle, t, supply.0 + amount.0);
        lemma_other_amounts_stay(entries, b, held.0 + amount.0, other);
        lemma_other_amounts_stay(middle, t, supply.0 + amount.0, other);
    }
}

/// Why the bank refuses, in the order in which it looks: an amount that cannot be read is
/// named as it is; too little is held; the sum leaves its range; or less is in
/// circulation than would be destroyed.
pub proof fn law_why_the_bank_refuses(
    entries: Map<Hash32, Seq<u8>>,
    account: Address,
    to: Address,
    denom: Seq<char>,
    amount: Amount,
)
    ensures
        ({
            let held = amount_at(entries, balance_key(account, denom));
            let has = amount_at(entries, balance_key(to, denom));
            let supply = amount_at(entries, supply_key(denom));
            let why_not_moved = if held is Err {
                Some(held->Err_0)
            } else if held->Ok_0.0 < amount.0 {
                Some(BankFault::InsufficientBalance)
            } else if account == to {
                None
            } else if has is Err {
                Some(has->Err_0)
            } else if has->Ok_0.0 + amount.0 > u128::MAX {
                Some(BankFault::Overflow)
            } else {
                None
            };
            let why_not_destroyed = if held is Err {
                Some(held->Err_0)
            } else if held->Ok_0.0 < amount.0 {
                Some(BankFault::InsufficientBalance)
            } else if supply is Err {
                Some(supply->Err_0)
            } else if supply->Ok_0.0 < amount.0 {
                Some(BankFault::SupplyTooSmall)
            } else {
                None
            };
            let why_not_allocated = if held is Err {
                Some(held->Err_0)
            } else if held->Ok_0.0 + amount.0 > u128::MAX {
                Some(BankFault::Overflow)
            } else if supply is Err {
                Some(supply->Err_0)
            } else if supply->Ok_0.0 + amount.0 > u128::MAX {
                Some(BankFault::Overflow)
            } else {
                None
            };
            &&& transferred(entries, account, to, denom, amount) is Ok <==> why_not_moved is None
            &&& transferred(entries, account, to, denom, amount) matches Err(f) ==> why_not_moved
                == Some(f)
            &&& destroyed(entries, account, denom, amount) is Ok <==> why_not_destroyed is None
            &&& destroyed(entries, account, denom, amount) matches Err(f) ==> why_not_destroyed
                == Some(f)
            &&& allocated(entries, account, denom, amount) is Ok <==> why_not_allocated is None
            &&& allocated(entries, account, denom, amount) matches Err(f) ==> why_not_allocated
                == Some(f)
        }),
        account == to ==> (transferred(entries, account, to, denom, amount) matches Ok(after)
            ==> after == entries),
{
}

/// What it means that an operation was carried out: its result is the one it comes to, the
/// entries are those it leaves, and where it was refused they are as they were.
pub proof fn law_a_refused_operation_changes_nothing(
    r: Result<(), BankError>,
    before: Map<Hash32, Seq<u8>>,
    after: Map<Hash32, Seq<u8>>,
    want: Result<Map<Hash32, Seq<u8>>, BankFault>,
)
    ensures
        carried_out(r, before, after, want) && r is Err ==> after == before,
        carried_out(r, before, after, want) ==> (r is Ok <==> want is Ok),
        carried_out(r, before, after, want) ==> (want matches Ok(entries) ==> after == entries),
        carried_out(r, before, after, want) ==> (want matches Err(f) ==> (r matches Err(e)
            && e.deep_view() == f)),
{
}

/// An amount is read as it is stored, and a record that cannot be read as an amount is a
/// fault of the state and never zero.
pub proof fn law_unreadable_amounts_are_not_zero(entries: Map<Hash32, Seq<u8>>, key: Seq<u8>)
    ensures
        typed::<Amount>(entries, key) matches Ok(Some(a)) ==> amount_at(entries, key) == Ok::<
            Amount,
            BankFault,
        >(a),
        typed::<Amount>(entries, key) == Ok::<Option<Amount>, StateFault>(None) ==> amount_at(
            entries,
            key,
        ) == Ok::<Amount, BankFault>(Amount(0)),
        typed::<Amount>(entries, key) matches Err(f) ==> amount_at(entries, key) == Err::<
            Amount,
            BankFault,
        >(BankFault::State(f)),
{
}

} // verus!
