//! Fixed-point token amounts.
//!
//! An [`Amount`] is an unsigned integer count of the smallest indivisible unit of
//! a token. There are no fractions and no floats. For AFRI the smallest unit is
//! the sente, with 10^9 sente to one AFRI.

use crate::primitives::codec::{Canonical, CodecError, Decode, Encode, Parsed, Reader};
use crate::primitives::error::{Error, Fault};
use crate::primitives::text;
use vstd::prelude::*;

verus! {

/// Decimal places between one AFRI and one sente.
pub const AFRI_DECIMALS: u32 = 9;

/// Number of sente in one whole AFRI.
pub const SENTE_PER_AFRI: u128 = 1_000_000_000;

/// An unsigned amount of the smallest unit of some denomination.
#[derive(Debug, Clone, Copy, PartialEq, Eq, PartialOrd, Ord, Hash, Structural)]
pub struct Amount(pub u128);

impl Default for Amount {
    fn default() -> (a: Amount)
        ensures
            a.0 == 0,
    {
        Amount(0)
    }
}

impl Amount {
    /// The zero amount.
    pub fn zero() -> (a: Self)
        ensures
            a.0 == 0,
    {
        Amount(0)
    }

    /// The largest representable amount.
    pub fn max_value() -> (a: Self)
        ensures
            a.0 == u128::MAX,
    {
        Amount(u128::MAX)
    }

    /// Construct from a raw count of smallest units.
    pub fn from_units(units: u128) -> (a: Self)
        ensures
            a.0 == units,
    {
        Amount(units)
    }

    /// Construct from a whole number of AFRI. Every such amount is representable.
    pub fn from_afri(whole: u64) -> (a: Self)
        ensures
            a.0 == whole * SENTE_PER_AFRI,
    {
        Amount((whole as u128) * SENTE_PER_AFRI)
    }

    /// The raw count of smallest units.
    pub fn units(self) -> (n: u128)
        ensures
            n == self.0,
    {
        self.0
    }

    /// Whether this is exactly zero.
    pub fn is_zero(self) -> (b: bool)
        ensures
            b == (self.0 == 0),
    {
        self.0 == 0
    }

    /// Checked addition: an error if the sum exceeds the largest amount.
    pub fn checked_add(self, other: Self) -> (r: Result<Self, Error>)
        ensures
            match r {
                Ok(a) => a.0 == self.0 + other.0,
                Err(e) => self.0 + other.0 > u128::MAX && e.deep_view() == (Fault::Overflow {
                    op: "Amount::add"@,
                }),
            },
    {
        match self.0.checked_add(other.0) {
            Some(n) => Ok(Amount(n)),
            None => Err(Error::Overflow { op: "Amount::add" }),
        }
    }

    /// Checked subtraction: an error if `other > self`. Balances are unsigned, so
    /// an underflow is exactly the "spent more than you have" case.
    pub fn checked_sub(self, other: Self) -> (r: Result<Self, Error>)
        ensures
            match r {
                Ok(a) => a.0 == self.0 - other.0,
                Err(e) => self.0 < other.0 && e.deep_view() == (Fault::Overflow {
                    op: "Amount::sub"@,
                }),
            },
    {
        match self.0.checked_sub(other.0) {
            Some(n) => Ok(Amount(n)),
            None => Err(Error::Overflow { op: "Amount::sub" }),
        }
    }

    /// Checked multiplication by a scalar.
    pub fn checked_mul(self, scalar: u128) -> (r: Result<Self, Error>)
        ensures
            match r {
                Ok(a) => a.0 == self.0 * scalar,
                Err(e) => self.0 * scalar > u128::MAX && e.deep_view() == (Fault::Overflow {
                    op: "Amount::mul"@,
                }),
            },
    {
        match self.0.checked_mul(scalar) {
            Some(n) => Ok(Amount(n)),
            None => Err(Error::Overflow { op: "Amount::mul" }),
        }
    }

    /// Multiply by `numer / denom` with truncation, without intermediate overflow
    /// for the common case.
    ///
    /// The product is split as `q * numer + (r * numer) / denom`, where `q` and
    /// `r` are the quotient and remainder of the amount by `denom`; it is an
    /// error if `denom` is zero or one of the two products or their sum wraps.
    pub fn mul_ratio(self, numer: u128, denom: u128) -> (r: Result<Self, Error>)
        ensures
            match r {
                Ok(a) => denom != 0 && a.0 == (self.0 * numer) / (denom as int),
                Err(e) => {
                    ||| denom == 0 && e.deep_view() == (Fault::Overflow {
                        op: "Amount::mul_ratio/zero-denominator"@,
                    })
                    ||| denom != 0 && ratio_wraps(self.0 as nat, numer as nat, denom as nat)
                        && e.deep_view() == (Fault::Overflow { op: "Amount::mul_ratio"@ })
                },
            },
            denom != 0 && ratio_wraps(self.0 as nat, numer as nat, denom as nat) ==> r is Err,
    {
        if denom == 0 {
            return Err(Error::Overflow { op: "Amount::mul_ratio/zero-denominator" });
        }
        let q: u128 = self.0 / denom;
        let r: u128 = self.0 % denom;
        proof {
            lemma_ratio_splits(self.0 as int, numer as int, denom as int);
        }
        let lhs: u128 = match q.checked_mul(numer) {
            Some(n) => n,
            None => {
                return Err(Error::Overflow { op: "Amount::mul_ratio" });
            },
        };
        let product: u128 = match r.checked_mul(numer) {
            Some(n) => n,
            None => {
                return Err(Error::Overflow { op: "Amount::mul_ratio" });
            },
        };
        let rhs: u128 = product / denom;
        match lhs.checked_add(rhs) {
            Some(n) => Ok(Amount(n)),
            None => Err(Error::Overflow { op: "Amount::mul_ratio" }),
        }
    }
}

/// Whether splitting `amount * numer / denom` leaves the range of a `u128`.
pub open spec fn ratio_wraps(amount: nat, numer: nat, denom: nat) -> bool {
    ||| (amount / denom) * numer > u128::MAX
    ||| (amount % denom) * numer > u128::MAX
    ||| (amount / denom) * numer + ((amount % denom) * numer) / denom > u128::MAX
}

/// The split product is the truncated product.
proof fn lemma_ratio_splits(a: int, n: int, d: int)
    requires
        0 <= a,
        0 <= n,
        0 < d,
    ensures
        (a * n) / d == (a / d) * n + ((a % d) * n) / d,
{
    let q = a / d;
    let r = a % d;
    vstd::arithmetic::div_mod::lemma_fundamental_div_mod(a, d);
    assert(a * n == d * (q * n) + r * n) by (nonlinear_arith)
        requires
            a == d * q + r,
    ;
    vstd::arithmetic::div_mod::lemma_hoist_over_denominator(r * n, q * n, d as nat);
    assert(d * (q * n) == (q * n) * d) by (nonlinear_arith);
}

/// An amount of sente in decimal AFRI: at least one digit after the point, no
/// further trailing zeros.
pub open spec fn amount_text(units: nat) -> Seq<char> {
    let places = text::trim_zeros(text::padded(units % 1_000_000_000, 9));
    text::decimal(units / 1_000_000_000) + "."@ + (if places.len() == 0 {
        "0"@
    } else {
        places
    })
}

/// The sente that a decimal AFRI quantity denotes: digits, optionally a point
/// and one to nine digits more.
pub open spec fn decimal_units(s: Seq<char>) -> Option<nat> {
    let point = text::position(s, '.') as int;
    let whole = s.take(point);
    if whole.len() == 0 || !text::all_digits(whole) {
        None
    } else if point == s.len() {
        Some(text::decimal_value(whole) * 1_000_000_000)
    } else {
        let places = s.skip(point + 1);
        if places.len() == 0 || places.len() > 9 || !text::all_digits(places) {
            None
        } else {
            Some(
                text::decimal_value(whole) * 1_000_000_000 + text::decimal_value(places)
                    * text::pow10((9 - places.len()) as nat),
            )
        }
    }
}

/// A rendered amount reads back as the same amount.
pub proof fn law_amount_text_reads_back(units: nat)
    ensures
        decimal_units(amount_text(units)) == Some(units),
{
    let whole = text::decimal(units / 1_000_000_000);
    let sub = units % 1_000_000_000;
    let digits = text::padded(sub, 9);
    let places = text::trim_zeros(digits);
    let s = amount_text(units);
    reveal_strlit(".");
    reveal_strlit("0");
    text::lemma_decimal_reads_back(units / 1_000_000_000);
    assert(text::pow10(9) == 1_000_000_000) by {
        reveal_with_fuel(text::pow10, 10);
    }
    text::lemma_padded(sub, 9);
    text::lemma_trim_zeros(digits);
    assert forall|j: int| 0 <= j < whole.len() implies s[j] != '.' by {
        assert(text::is_digit(whole[j]));
        assert(s[j] == whole[j]);
    }
    text::lemma_position_is(s, '.', whole.len() as int);
    assert(s.take(whole.len() as int) =~= whole);
    let tail = s.skip(whole.len() as int + 1);
    if places.len() == 0 {
        assert(tail =~= "0"@);
        assert(text::decimal_value(places) == 0);
        assert(text::decimal_value(places) * text::pow10(9) == 0);
        assert("0"@ =~= text::decimal(0));
        text::lemma_decimal_reads_back(0);
        assert(text::decimal_value(tail) * text::pow10(8) == 0);
    } else {
        assert(tail =~= places);
    }
}

/// An amount's text holds digits and points only.
pub proof fn lemma_amount_text_is_digits(units: nat)
    ensures
        forall|i: int|
            0 <= i < amount_text(units).len() ==> text::is_digit(#[trigger] amount_text(units)[i])
                || amount_text(units)[i] == '.',
{
    let whole = text::decimal(units / 1_000_000_000);
    let digits = text::padded(units % 1_000_000_000, 9);
    let places = text::trim_zeros(digits);
    let s = amount_text(units);
    reveal_strlit(".");
    reveal_strlit("0");
    text::lemma_decimal_reads_back(units / 1_000_000_000);
    text::lemma_padded(units % 1_000_000_000, 9);
    text::lemma_trim_zeros(digits);
    assert forall|i: int| 0 <= i < s.len() implies text::is_digit(#[trigger] s[i]) || s[i]
        == '.' by {
        if i < whole.len() {
            assert(s[i] == whole[i]);
        } else if i > whole.len() && places.len() > 0 {
            assert(s[i] == places[i - whole.len() - 1]);
        }
    }
}

impl Amount {
    /// Render as a decimal number of AFRI, trimming trailing zeros but always
    /// keeping at least one digit after the point.
    pub fn to_string(&self) -> (s: String)
        ensures
            s@ == amount_text(self.0 as nat),
    {
        let mut out = text::decimal_text(self.0 / SENTE_PER_AFRI);
        out.append(".");
        let mut places: Vec<char> = Vec::new();
        text::push_padded(&mut places, self.0 % SENTE_PER_AFRI, 9);
        assert(places@ =~= text::padded((self.0 % SENTE_PER_AFRI) as nat, 9));
        text::drop_trailing_zeros(&mut places);
        if places.len() == 0 {
            out.append("0");
        } else {
            let tail = text::string_of(&places);
            out.append(tail.as_str());
        }
        out
    }

    /// Render for a payment request.
    pub fn to_decimal(self) -> (s: String)
        ensures
            s@ == amount_text(self.0 as nat),
    {
        self.to_string()
    }

    /// Parse a decimal number of AFRI: digits, optionally a point and one to nine
    /// digits more. Nothing else is accepted, and nothing is rounded.
    pub fn from_decimal(s: &str) -> (r: Result<Self, Error>)
        ensures
            match decimal_units(s@) {
                None => r matches Err(e) && e.deep_view() == (Fault::Invalid { what: "Amount"@ }),
                Some(n) => if n <= u128::MAX {
                    r matches Ok(a) && a.0 == n
                } else {
                    r matches Err(e) && e.deep_view() == (Fault::Overflow {
                        op: "Amount::from_decimal"@,
                    })
                },
            },
    {
        let cs = text::chars_of(s);
        let point: usize = text::find_char(&cs, '.');
        proof {
            text::lemma_position(cs@, '.');
        }
        let whole = text::chars_between(&cs, 0, point);
        assert(whole@ =~= s@.take(point as int));
        if whole.len() == 0 || !text::is_all_digits(&whole) {
            return Err(Error::Invalid { what: "Amount" });
        }
        let mut sub: u128 = 0;
        if point < cs.len() {
            let places = text::chars_between(&cs, point + 1, cs.len());
            assert(places@ =~= s@.skip(point as int + 1));
            if places.len() == 0 || places.len() > 9 || !text::is_all_digits(&places) {
                return Err(Error::Invalid { what: "Amount" });
            }
            sub = scaled_places(&places);
        }
        let afri: u128 = match text::read_decimal(&whole, u128::MAX) {
            Some(n) => n,
            None => {
                return Err(Error::Overflow { op: "Amount::from_decimal" });
            },
        };
        let units: u128 = match afri.checked_mul(SENTE_PER_AFRI) {
            Some(n) => n,
            None => {
                return Err(Error::Overflow { op: "Amount::from_decimal" });
            },
        };
        match units.checked_add(sub) {
            Some(n) => Ok(Amount(n)),
            None => Err(Error::Overflow { op: "Amount::from_decimal" }),
        }
    }
}

/// The sente that one to nine decimal places denote.
fn scaled_places(places: &Vec<char>) -> (n: u128)
    requires
        places@.len() <= 9,
        text::all_digits(places@),
    ensures
        n == text::decimal_value(places@) * text::pow10((9 - places@.len()) as nat),
        n < 1_000_000_000,
{
    proof {
        text::lemma_decimal_value_bound(places@);
        lemma_pow10_up_to_nine(places@.len());
    }
    let mut n: u128 = match text::read_decimal(places, 999_999_999) {
        Some(n) => n,
        None => 0,
    };
    let mut k: usize = places.len();
    assert(text::pow10((k - places@.len()) as nat) == 1);
    while k < 9
        invariant
            places@.len() <= k <= 9,
            text::decimal_value(places@) < text::pow10(places@.len()),
            n == text::decimal_value(places@) * text::pow10((k - places@.len()) as nat),
            n < text::pow10(k as nat),
        decreases 9 - k,
    {
        proof {
            lemma_pow10_up_to_nine(k as nat);
            let v = text::decimal_value(places@);
            let p = text::pow10((k - places@.len()) as nat);
            assert(text::pow10((k + 1 - places@.len()) as nat) == 10 * p);
            assert((v * p) * 10 == v * (10 * p)) by (nonlinear_arith);
        }
        n = n * 10;
        k += 1;
    }
    proof {
        lemma_pow10_up_to_nine(9);
    }
    n
}

proof fn lemma_pow10_up_to_nine(k: nat)
    requires
        k <= 9,
    ensures
        text::pow10(k) <= 1_000_000_000,
        text::pow10(9) == 1_000_000_000,
{
    reveal_with_fuel(text::pow10, 10);
}

impl DeepView for Amount {
    type V = Amount;

    open spec fn deep_view(&self) -> Amount {
        *self
    }
}

impl Encode for Amount {
    open spec fn bytes_of(v: Amount) -> Seq<u8> {
        u128::bytes_of(v.0)
    }

    fn encode(&self, out: &mut Vec<u8>) {
        self.0.encode(out);
    }
}

impl Decode for Amount {
    open spec fn parse(s: Seq<u8>) -> Parsed<Amount> {
        u128::parse(s).map(|n: u128| Amount(n))
    }

    fn decode(r: &mut Reader<'_>) -> (res: Result<Self, CodecError>) {
        let n: u128 = u128::decode(r)?;
        Ok(Amount(n))
    }
}

impl Canonical for Amount {
    open spec fn valid(v: Amount) -> bool {
        true
    }

    proof fn round_trip(v: Amount, tail: Seq<u8>) {
        u128::round_trip(v.0, tail);
    }

    proof fn one_encoding(s: Seq<u8>) {
        u128::one_encoding(s);
    }
}

} // verus!
