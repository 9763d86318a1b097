//! Bonds, and stake on its way out.

use crate::crypto::address::Address;
use crate::crypto::keys::PublicKey;
use crate::primitives::amount::Amount;
use crate::primitives::codec::{Canonical, CodecError, Decode, Encode, Parsed, Reader};
use crate::primitives::country::CountryCode;
use crate::primitives::ids::{Height, Timestamp};
use crate::primitives::wire;
use vstd::prelude::*;

verus! {

/// An operator's stake and the identity it secures.
#[derive(Debug, Clone, PartialEq, Eq)]
pub struct Bond {
    /// The account that controls this bond and receives its stake back.
    pub operator: Address,
    /// The consensus key this operator signs blocks with. It lives on a machine that is online
    /// continuously; the account that owns the money does not have to.
    pub public_key: PublicKey,
    /// Where the operator is, for the concentration limits.
    pub country: CountryCode,
    /// Stake currently at risk.
    pub bonded: Amount,
    /// Whether an infraction has removed this operator from the active set.
    pub jailed: bool,
    /// Height at which the operator was jailed, if they are.
    pub jailed_at: Option<Height>,
}

/// The mathematical view of a [`Bond`].
pub struct BondView {
    pub operator: Address,
    pub public_key: Seq<u8>,
    pub country: Seq<u8>,
    pub bonded: Amount,
    pub jailed: bool,
    pub jailed_at: Option<Height>,
}

impl DeepView for Bond {
    type V = BondView;

    open spec fn deep_view(&self) -> BondView {
        BondView {
            operator: self.operator.deep_view(),
            public_key: self.public_key.deep_view(),
            country: self.country.deep_view(),
            bonded: self.bonded.deep_view(),
            jailed: self.jailed.deep_view(),
            jailed_at: self.jailed_at.deep_view(),
        }
    }
}

impl Bond {
    /// A new, unjailed bond.
    pub fn new(
        operator: Address,
        public_key: PublicKey,
        country: CountryCode,
        bonded: Amount,
    ) -> (b: Self)
        ensures
            b == (Bond {
                operator,
                public_key,
                country,
                bonded,
                jailed: false,
                jailed_at: None,
            }),
    {
        Bond { operator, public_key, country, bonded, jailed: false, jailed_at: None }
    }
}

/// Stake that has been withdrawn from the active set but is still slashable.
///
/// An infraction at height `h` reaches every entry that was still bonded at `h`: the stake left the
/// active set, but not the period during which it answers for what it did.
#[derive(Debug, Clone, Copy, PartialEq, Eq)]
pub struct Unbonding {
    /// How much is queued.
    pub amount: Amount,
    /// The height at which unbonding began.
    pub started_at: Height,
    /// The wall-clock time at which the funds may be withdrawn.
    pub completes_at: Timestamp,
}

impl DeepView for Unbonding {
    type V = Unbonding;

    open spec fn deep_view(&self) -> Unbonding {
        *self
    }
}

impl Unbonding {
    /// Whether this entry was still bonded at a height, and so answers for an
    /// infraction committed then.
    pub open spec fn answers_for(self, height: Height) -> bool {
        self.started_at.0 > height.0
    }

    /// Whether the funds may be withdrawn at a time.
    pub open spec fn is_due(self, now: Timestamp) -> bool {
        now.0 >= self.completes_at.0
    }

    /// Whether this entry was still bonded at `height`, and so answers for an
    /// infraction committed then.
    pub fn covers(&self, height: Height) -> (b: bool)
        ensures
            b == self.answers_for(height),
    {
        self.started_at.0 > height.0
    }

    /// Whether the funds may be withdrawn at `now`.
    pub fn matured(&self, now: Timestamp) -> (b: bool)
        ensures
            b == self.is_due(now),
    {
        now.0 >= self.completes_at.0
    }
}

impl Encode for Bond {
    open spec fn bytes_of(v: BondView) -> Seq<u8> {
        <(Address, (PublicKey, (CountryCode, (Amount, (bool, Option<Height>)))))>::bytes_of(
            (v.operator, (v.public_key, (v.country, (v.bonded, (v.jailed, v.jailed_at)))))
        )
    }

    fn encode(&self, out: &mut Vec<u8>) {
        broadcast use wire::lemma_concat_assoc;

        self.operator.encode(out);
        self.public_key.encode(out);
        self.country.encode(out);
        self.bonded.encode(out);
        self.jailed.encode(out);
        self.jailed_at.encode(out);
    }
}

impl Decode for Bond {
    open spec fn parse(s: Seq<u8>) -> Parsed<BondView> {
        <(Address, (PublicKey, (CountryCode, (Amount, (bool, Option<Height>)))))>::parse(s).map(
            |t: (Address, (Seq<u8>, (Seq<u8>, (Amount, (bool, Option<Height>)))))|
                BondView {
                    operator: t.0,
                    public_key: t.1.0,
                    country: t.1.1.0,
                    bonded: t.1.1.1.0,
                    jailed: t.1.1.1.1.0,
                    jailed_at: t.1.1.1.1.1,
                },
        )
    }

    fn decode(r: &mut Reader<'_>) -> (res: Result<Self, CodecError>) {
        let operator = Address::decode(r)?;
        let public_key = PublicKey::decode(r)?;
        let country = CountryCode::decode(r)?;
        let bonded = Amount::decode(r)?;
        let jailed = bool::decode(r)?;
        let jailed_at = Option::<Height>::decode(r)?;
        Ok(Bond { operator, public_key, country, bonded, jailed, jailed_at })
    }
}

impl Canonical for Bond {
    open spec fn valid(v: BondView) -> bool {
        <(Address, (PublicKey, (CountryCode, (Amount, (bool, Option<Height>)))))>::valid(
            (v.operator, (v.public_key, (v.country, (v.bonded, (v.jailed, v.jailed_at)))))
        )
    }

    proof fn round_trip(v: BondView, tail: Seq<u8>) {
        <(Address, (PublicKey, (CountryCode, (Amount, (bool, Option<Height>)))))>::round_trip(
            (v.operator, (v.public_key, (v.country, (v.bonded, (v.jailed, v.jailed_at))))),
            tail,
        );
    }

    proof fn one_encoding(s: Seq<u8>) {
        <(Address, (PublicKey, (CountryCode, (Amount, (bool, Option<Height>)))))>::one_encoding(s);
    }
}

impl Encode for Unbonding {
    open spec fn bytes_of(v: Unbonding) -> Seq<u8> {
        <(Amount, (Height, Timestamp))>::bytes_of((v.amount, (v.started_at, v.completes_at)))
    }

    fn encode(&self, out: &mut Vec<u8>) {
        broadcast use wire::lemma_concat_assoc;

        self.amount.encode(out);
        self.started_at.encode(out);
        self.completes_at.encode(out);
    }
}

impl Decode for Unbonding {
    open spec fn parse(s: Seq<u8>) -> Parsed<Unbonding> {
        <(Amount, (Height, Timestamp))>::parse(s).map(
            |t: (Amount, (Height, Timestamp))|
                Unbonding { amount: t.0, started_at: t.1.0, completes_at: t.1.1 },
        )
    }

    fn decode(r: &mut Reader<'_>) -> (res: Result<Self, CodecError>) {
        let amount = Amount::decode(r)?;
        let started_at = Height::decode(r)?;
        let completes_at = Timestamp::decode(r)?;
        Ok(Unbonding { amount, started_at, completes_at })
    }
}

impl Canonical for Unbonding {
    open spec fn valid(v: Unbonding) -> bool {
        <(Amount, (Height, Timestamp))>::valid((v.amount, (v.started_at, v.completes_at)))
    }

    proof fn round_trip(v: Unbonding, tail: Seq<u8>) {
        <(Amount, (Height, Timestamp))>::round_trip(
            (v.amount, (v.started_at, v.completes_at)),
            tail,
        );
    }

    proof fn one_encoding(s: Seq<u8>) {
        <(Amount, (Height, Timestamp))>::one_encoding(s);
    }
}

} // verus!
