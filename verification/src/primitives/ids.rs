//! Chain, block and time identifiers.

use crate::primitives::codec::{
    fault, Canonical, CodecError, CodecFault, Decode, Encode, Parsed, Reader,
};
use crate::primitives::error::{Error, Fault};
use crate::primitives::text;
use vstd::prelude::*;
use vstd::utf8::encode_utf8;

verus! {

/// A block height. Genesis is height 0.
#[derive(Debug, Clone, Copy, PartialEq, Eq, PartialOrd, Ord, Hash, Structural)]
pub struct Height(pub u64);

/// A consensus round within a height. Rounds restart at 0 for each height.
#[derive(Debug, Clone, Copy, PartialEq, Eq, PartialOrd, Ord, Hash, Structural)]
pub struct Round(pub u32);

/// Milliseconds since the Unix epoch.
///
/// Block time is agreed by the validator set, not read from a local clock.
#[derive(Debug, Clone, Copy, PartialEq, Eq, PartialOrd, Ord, Hash, Structural)]
pub struct Timestamp(pub u64);

impl Height {
    /// The height of the genesis block.
    pub fn genesis() -> (h: Self)
        ensures
            h.0 == 0,
    {
        Height(0)
    }

    /// The height in decimal.
    pub fn to_string(&self) -> (s: String)
        ensures
            s@ == crate::primitives::text::decimal(self.0 as nat),
    {
        crate::primitives::text::decimal_text(self.0 as u128)
    }

    /// The next height, saturating at `u64::MAX`.
    pub fn next(self) -> (h: Self)
        ensures
            h.0 == (if self.0 == u64::MAX {
                u64::MAX as int
            } else {
                self.0 + 1
            }),
    {
        Height(self.0.saturating_add(1))
    }
}

impl Default for Height {
    fn default() -> (h: Self)
        ensures
            h.0 == 0,
    {
        Height(0)
    }
}

impl Round {
    /// The first round of a height.
    pub fn zero() -> (r: Self)
        ensures
            r.0 == 0,
    {
        Round(0)
    }

    /// The next round, saturating at `u32::MAX`.
    pub fn next(self) -> (r: Self)
        ensures
            r.0 == (if self.0 == u32::MAX {
                u32::MAX as int
            } else {
                self.0 + 1
            }),
    {
        Round(self.0.saturating_add(1))
    }
}

impl Default for Round {
    fn default() -> (r: Self)
        ensures
            r.0 == 0,
    {
        Round(0)
    }
}

impl Timestamp {
    /// Construct from milliseconds since the Unix epoch.
    pub fn from_millis(ms: u64) -> (t: Self)
        ensures
            t.0 == ms,
    {
        Timestamp(ms)
    }

    /// Milliseconds since the Unix epoch.
    pub fn as_millis(self) -> (ms: u64)
        ensures
            ms == self.0,
    {
        self.0
    }

    /// Whole seconds since the Unix epoch.
    pub fn as_secs(self) -> (s: u64)
        ensures
            s == self.0 / 1_000,
    {
        self.0 / 1_000
    }
}

impl Default for Timestamp {
    fn default() -> (t: Self)
        ensures
            t.0 == 0,
    {
        Timestamp(0)
    }
}

impl DeepView for Height {
    type V = Height;

    open spec fn deep_view(&self) -> Height {
        *self
    }
}

impl Encode for Height {
    open spec fn bytes_of(v: Height) -> Seq<u8> {
        u64::bytes_of(v.0)
    }

    fn encode(&self, out: &mut Vec<u8>) {
        self.0.encode(out);
    }
}

impl Decode for Height {
    open spec fn parse(s: Seq<u8>) -> Parsed<Height> {
        u64::parse(s).map(|n: u64| Height(n))
    }

    fn decode(r: &mut Reader<'_>) -> (res: Result<Self, CodecError>) {
        let n: u64 = u64::decode(r)?;
        Ok(Height(n))
    }
}

impl Canonical for Height {
    open spec fn valid(v: Height) -> bool {
        true
    }

    proof fn round_trip(v: Height, tail: Seq<u8>) {
        u64::round_trip(v.0, tail);
    }

    proof fn one_encoding(s: Seq<u8>) {
        u64::one_encoding(s);
    }
}

impl DeepView for Round {
    type V = Round;

    open spec fn deep_view(&self) -> Round {
        *self
    }
}

impl Encode for Round {
    open spec fn bytes_of(v: Round) -> Seq<u8> {
        u32::bytes_of(v.0)
    }

    fn encode(&self, out: &mut Vec<u8>) {
        self.0.encode(out);
    }
}

impl Decode for Round {
    open spec fn parse(s: Seq<u8>) -> Parsed<Round> {
        u32::parse(s).map(|n: u32| Round(n))
    }

    fn decode(r: &mut Reader<'_>) -> (res: Result<Self, CodecError>) {
        let n: u32 = u32::decode(r)?;
        Ok(Round(n))
    }
}

impl Canonical for Round {
    open spec fn valid(v: Round) -> bool {
        true
    }

    proof fn round_trip(v: Round, tail: Seq<u8>) {
        u32::round_trip(v.0, tail);
    }

    proof fn one_encoding(s: Seq<u8>) {
        u32::one_encoding(s);
    }
}

impl DeepView for Timestamp {
    type V = Timestamp;

    open spec fn deep_view(&self) -> Timestamp {
        *self
    }
}

impl Encode for Timestamp {
    open spec fn bytes_of(v: Timestamp) -> Seq<u8> {
        u64::bytes_of(v.0)
    }

    fn encode(&self, out: &mut Vec<u8>) {
        self.0.encode(out);
    }
}

impl Decode for Timestamp {
    open spec fn parse(s: Seq<u8>) -> Parsed<Timestamp> {
        u64::parse(s).map(|n: u64| Timestamp(n))
    }

    fn decode(r: &mut Reader<'_>) -> (res: Result<Self, CodecError>) {
        let n: u64 = u64::decode(r)?;
        Ok(Timestamp(n))
    }
}

impl Canonical for Timestamp {
    open spec fn valid(v: Timestamp) -> bool {
        true
    }

    proof fn round_trip(v: Timestamp, tail: Seq<u8>) {
        u64::round_trip(v.0, tail);
    }

    proof fn one_encoding(s: Seq<u8>) {
        u64::one_encoding(s);
    }
}

/// A human-readable network identifier, e.g. `afrolink-1`.
///
/// The chain id is mixed into every signature, so a transaction signed on one
/// network cannot be replayed on another.
#[derive(Debug, Eq, PartialOrd, Ord, Hash)]
pub struct ChainId(String);

/// Longest permitted chain id, in bytes.
pub const MAX_CHAIN_ID_LEN: usize = 50;

/// A character that may occur in a chain id.
pub open spec fn chain_id_char(c: char) -> bool {
    text::is_lower(c) || text::is_digit(c) || c == '-'
}

/// The first naming rule that a string violates, if it violates any.
pub open spec fn chain_id_complaint(s: Seq<char>) -> Option<Seq<char>> {
    if s.len() == 0 {
        Some("must not be empty"@)
    } else if encode_utf8(s).len() > MAX_CHAIN_ID_LEN {
        Some("longer than 50 bytes"@)
    } else if !(forall|i: int| 0 <= i < s.len() ==> chain_id_char(#[trigger] s[i])) {
        Some("may only contain [a-z0-9-]"@)
    } else {
        None
    }
}

/// Whether a string may name a chain.
pub open spec fn valid_chain_id(s: Seq<char>) -> bool {
    chain_id_complaint(s) is None
}

impl View for ChainId {
    type V = Seq<char>;

    closed spec fn view(&self) -> Seq<char> {
        self.0@
    }
}

impl DeepView for ChainId {
    type V = Seq<char>;

    open spec fn deep_view(&self) -> Seq<char> {
        self@
    }
}

impl Clone for ChainId {
    fn clone(&self) -> (r: Self)
        ensures
            r == *self,
    {
        proof {
            use_type_invariant(self);
        }
        ChainId(self.0.clone())
    }
}

impl PartialEq for ChainId {
    fn eq(&self, other: &Self) -> (r: bool) {
        text::same_text(self.0.as_str(), other.0.as_str())
    }
}

impl vstd::std_specs::cmp::PartialEqSpecImpl for ChainId {
    open spec fn obeys_eq_spec() -> bool {
        true
    }

    open spec fn eq_spec(&self, other: &Self) -> bool {
        self@ == other@
    }
}

impl ChainId {
    /// Every chain id obeys the naming rules.
    #[verifier::type_invariant]
    pub open spec fn well_formed(self) -> bool {
        valid_chain_id(self@)
    }

    /// Validate and wrap a chain id string. The error names the first rule
    /// violated.
    pub fn new(s: &str) -> (r: Result<Self, Error>)
        ensures
            match chain_id_complaint(s@) {
                None => r matches Ok(d) && d@ == s@,
                Some(reason) => r matches Err(e) && e.deep_view() == (Fault::InvalidChainId {
                    id: s@,
                    reason,
                }),
            },
    {
        let cs = text::chars_of(s);
        if cs.len() == 0 {
            return Err(Self::invalid(s, "must not be empty"));
        }
        if text::byte_len(s) > MAX_CHAIN_ID_LEN {
            return Err(Self::invalid(s, "longer than 50 bytes"));
        }
        let mut i: usize = 0;
        while i < cs.len()
            invariant
                i <= cs@.len(),
                cs@ == s@,
                0 < s@.len(),
                encode_utf8(s@).len() <= MAX_CHAIN_ID_LEN,
                forall|j: int| 0 <= j < i ==> chain_id_char(#[trigger] s@[j]),
            decreases cs@.len() - i,
        {
            let c = cs[i];
            if !(('a' <= c && c <= 'z') || ('0' <= c && c <= '9') || c == '-') {
                assert(!chain_id_char(s@[i as int]));
                return Err(Self::invalid(s, "may only contain [a-z0-9-]"));
            }
            i += 1;
        }
        Ok(ChainId(String::from_str(s)))
    }

    fn invalid(s: &str, reason: &'static str) -> (e: Error)
        ensures
            e.deep_view() == (Fault::InvalidChainId { id: s@, reason: reason@ }),
    {
        Error::InvalidChainId { id: String::from_str(s), reason }
    }

    /// The underlying string.
    pub fn as_str(&self) -> (s: &str)
        ensures
            s@ == self@,
    {
        self.0.as_str()
    }

    /// The underlying string, owned.
    pub fn to_string(&self) -> (s: String)
        ensures
            s@ == self@,
    {
        self.0.clone()
    }
}

impl Encode for ChainId {
    open spec fn bytes_of(v: Seq<char>) -> Seq<u8> {
        String::bytes_of(v)
    }

    fn encode(&self, out: &mut Vec<u8>) {
        self.0.encode(out);
    }
}

impl Decode for ChainId {
    open spec fn parse(s: Seq<u8>) -> Parsed<Seq<char>> {
        String::parse(s).and_then(
            |v: Seq<char>, rest: Seq<u8>|
                match chain_id_complaint(v) {
                    None => Parsed { value: Ok(v), rest },
                    Some(reason) => fault(
                        CodecFault::Invalid((Fault::InvalidChainId { id: v, reason }).text()),
                        rest,
                    ),
                },
        )
    }

    fn decode(r: &mut Reader<'_>) -> (res: Result<Self, CodecError>) {
        let s = String::decode(r)?;
        match Self::new(s.as_str()) {
            Ok(d) => Ok(d),
            Err(e) => Err(CodecError::Invalid(e.to_string())),
        }
    }
}

impl Canonical for ChainId {
    open spec fn valid(v: Seq<char>) -> bool {
        valid_chain_id(v)
    }

    proof fn round_trip(v: Seq<char>, tail: Seq<u8>) {
        String::round_trip(v, tail);
    }

    proof fn one_encoding(s: Seq<u8>) {
        String::one_encoding(s);
    }
}

} // verus!
