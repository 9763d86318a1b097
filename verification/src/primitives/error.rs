//! Shared error type for primitive operations.

use crate::primitives::codec::{CodecError, CodecFault};
use crate::primitives::text;
use vstd::prelude::*;

verus! {

/// Errors that can arise from the primitive types.
#[derive(Debug, Clone, PartialEq, Eq)]
pub enum Error {
    /// A canonical-codec failure.
    Codec(CodecError),
    /// A denomination string violated the naming rules.
    InvalidDenom {
        /// The rejected string.
        denom: String,
        /// Why it was rejected.
        reason: &'static str,
    },
    /// A chain identifier violated the naming rules.
    InvalidChainId {
        /// The rejected string.
        id: String,
        /// Why it was rejected.
        reason: &'static str,
    },
    /// A value outside what its type admits.
    Invalid {
        /// The type that refused it.
        what: &'static str,
    },
    /// A checked arithmetic operation would have wrapped.
    Overflow {
        /// The operation that overflowed.
        op: &'static str,
    },
}

/// The mathematical view of an [`Error`].
pub enum Fault {
    Codec(CodecFault),
    InvalidDenom { denom: Seq<char>, reason: Seq<char> },
    InvalidChainId { id: Seq<char>, reason: Seq<char> },
    Invalid { what: Seq<char> },
    Overflow { op: Seq<char> },
}

impl DeepView for Error {
    type V = Fault;

    open spec fn deep_view(&self) -> Fault {
        match *self {
            Error::Codec(e) => Fault::Codec(e.deep_view()),
            Error::InvalidDenom { denom, reason } => Fault::InvalidDenom {
                denom: denom@,
                reason: reason@,
            },
            Error::InvalidChainId { id, reason } => Fault::InvalidChainId {
                id: id@,
                reason: reason@,
            },
            Error::Invalid { what } => Fault::Invalid { what: what@ },
            Error::Overflow { op } => Fault::Overflow { op: op@ },
        }
    }
}

impl Fault {
    /// The sentence that describes a fault.
    pub open spec fn text(self) -> Seq<char> {
        match self {
            Fault::Codec(e) => e.text(),
            Fault::InvalidDenom { denom, reason } => "invalid denom "@ + text::debug_form(denom)
                + ": "@ + reason,
            Fault::InvalidChainId { id, reason } => "invalid chain id "@ + text::debug_form(id)
                + ": "@ + reason,
            Fault::Invalid { what } => "invalid "@ + what,
            Fault::Overflow { op } => "arithmetic overflow in "@ + op,
        }
    }
}

impl Error {
    /// The sentence that describes this error.
    pub fn to_string(&self) -> (s: String)
        ensures
            s@ == self.deep_view().text(),
    {
        let mut out = String::new();
        match self {
            Error::Codec(e) => {
                return e.to_string();
            },
            Error::InvalidDenom { denom, reason } => {
                out.append("invalid denom ");
                out.append(text::quoted(denom.as_str()).as_str());
                out.append(": ");
                out.append(reason);
            },
            Error::InvalidChainId { id, reason } => {
                out.append("invalid chain id ");
                out.append(text::quoted(id.as_str()).as_str());
                out.append(": ");
                out.append(reason);
            },
            Error::Invalid { what } => {
                out.append("invalid ");
                out.append(what);
            },
            Error::Overflow { op } => {
                out.append("arithmetic overflow in ");
                out.append(op);
            },
        }
        out
    }
}

impl From<CodecError> for Error {
    fn from(e: CodecError) -> (r: Error) {
        Error::Codec(e)
    }
}

impl vstd::std_specs::convert::FromSpecImpl<CodecError> for Error {
    open spec fn obeys_from_spec() -> bool {
        true
    }

    open spec fn from_spec(e: CodecError) -> Error {
        Error::Codec(e)
    }
}

} // verus!
