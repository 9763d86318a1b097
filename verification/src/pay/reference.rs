//! Payment references: the field an exchange or a merchant reconciles against.
//!
//! One machine-readable integer carried beside the payment, not free text. Its
//! value has no meaning on the ledger; it is data for the recipient's systems.

use crate::primitives::codec::{Canonical, CodecError, Decode, Encode, Parsed, Reader};
use crate::primitives::text;
use vstd::prelude::*;

verus! {

/// A machine-readable reference the recipient's systems index on.
#[derive(Debug, Clone, Copy, PartialEq, Eq, PartialOrd, Ord, Hash, Structural)]
pub struct PaymentReference(pub u64);

impl DeepView for PaymentReference {
    type V = PaymentReference;

    open spec fn deep_view(&self) -> PaymentReference {
        *self
    }
}

/// The reference that a text denotes: plain digits that fit in 64 bits, with no
/// sign, whitespace or separators.
pub open spec fn reference_in(s: Seq<char>) -> Option<PaymentReference> {
    if s.len() > 0 && text::all_digits(s) && text::decimal_value(s) <= u64::MAX {
        Some(PaymentReference(text::decimal_value(s) as u64))
    } else {
        None
    }
}

impl PaymentReference {
    /// Render for a URI or a QR code.
    pub fn to_decimal(self) -> (s: String)
        ensures
            s@ == text::decimal(self.0 as nat),
    {
        text::decimal_text(self.0 as u128)
    }

    /// The reference in decimal.
    pub fn to_string(&self) -> (s: String)
        ensures
            s@ == text::decimal(self.0 as nat),
    {
        text::decimal_text(self.0 as u128)
    }

    /// Parse from decimal text, rejecting anything that is not plain digits.
    pub fn parse(s: &str) -> (r: Option<Self>)
        ensures
            r == reference_in(s@),
    {
        let chars = text::chars_of(s);
        if chars.len() == 0 || !text::is_all_digits(chars.as_slice()) {
            return None;
        }
        match text::read_decimal(chars.as_slice(), u64::MAX as u128) {
            Some(n) => Some(PaymentReference(n as u64)),
            None => None,
        }
    }
}

/// A reference survives being written and read: what a payer types back in is the
/// reference the recipient printed.
pub proof fn law_reference_reads_back(r: PaymentReference)
    ensures
        reference_in(text::decimal(r.0 as nat)) == Some(r),
{
    text::lemma_decimal_reads_back(r.0 as nat);
}

/// Whether an account can credit payments that arrive without a reference.
#[derive(Debug, Clone, Copy, PartialEq, Eq, Structural)]
pub enum RequiresReference {
    /// Payments without a reference are fine.
    No,
    /// Payments without a reference cannot be credited to anyone.
    Yes,
}

impl RequiresReference {
    /// Whether a payment carrying `reference` is acceptable.
    pub fn accepts(self, reference: Option<PaymentReference>) -> (b: bool)
        ensures
            b == (self == RequiresReference::No || reference is Some),
    {
        match self {
            RequiresReference::No => true,
            RequiresReference::Yes => reference.is_some(),
        }
    }
}

impl Encode for PaymentReference {
    open spec fn bytes_of(v: PaymentReference) -> Seq<u8> {
        u64::bytes_of(v.0)
    }

    fn encode(&self, out: &mut Vec<u8>) {
        self.0.encode(out);
    }
}

impl Decode for PaymentReference {
    open spec fn parse(s: Seq<u8>) -> Parsed<PaymentReference> {
        u64::parse(s).map(|n: u64| PaymentReference(n))
    }

    fn decode(r: &mut Reader<'_>) -> (res: Result<Self, CodecError>) {
        Ok(PaymentReference(u64::decode(r)?))
    }
}

impl Canonical for PaymentReference {
    open spec fn valid(v: PaymentReference) -> bool {
        true
    }

    proof fn round_trip(v: PaymentReference, tail: Seq<u8>) {
        u64::round_trip(v.0, tail);
    }

    proof fn one_encoding(s: Seq<u8>) {
        u64::one_encoding(s);
    }
}

} // verus!
