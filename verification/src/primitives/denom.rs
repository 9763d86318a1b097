//! Token denominations.
//!
//! A denom names an asset on the chain. There are three families: the native
//! `afri`, sovereign stablecoins such as `sov/ke/kes`, and contract assets such
//! as `cw/<contract>`. The namespaces are enforced here rather than by
//! convention, so a contract can never mint something that renders as a national
//! currency in a wallet ([`law_namespaces_are_disjoint`]).

use crate::primitives::codec::{
    fault, Canonical, CodecError, CodecFault, Decode, Encode, Parsed, Reader,
};
use crate::primitives::error::{Error, Fault};
use crate::primitives::text;
use vstd::prelude::*;
use vstd::utf8::encode_utf8;

verus! {

/// Longest permitted denom string, in bytes.
pub const MAX_DENOM_LEN: usize = 128;

/// Shortest permitted denom string, in bytes.
pub const MIN_DENOM_LEN: usize = 3;

/// Reserved prefix for state-issued (sovereign) stablecoins.
pub const SOVEREIGN_PREFIX: &'static str = "sov/";

/// Reserved prefix for assets minted by smart contracts.
pub const CONTRACT_PREFIX: &'static str = "cw/";

/// A validated token denomination.
#[derive(Debug, Eq, PartialOrd, Ord, Hash)]
pub struct Denom(String);

/// A character that may occur in a denom.
pub open spec fn denom_char(c: char) -> bool {
    text::is_lower(c) || text::is_digit(c) || c == '/' || c == '-' || c == '.'
}

/// The first naming rule that a string violates, if it violates any.
pub open spec fn denom_complaint(s: Seq<char>) -> Option<Seq<char>> {
    if encode_utf8(s).len() < MIN_DENOM_LEN {
        Some("shorter than 3 bytes"@)
    } else if encode_utf8(s).len() > MAX_DENOM_LEN {
        Some("longer than 128 bytes"@)
    } else if s.len() == 0 || !text::is_lower(s[0]) {
        Some("must start with a lowercase ASCII letter"@)
    } else if !(forall|i: int| 0 <= i < s.len() ==> denom_char(#[trigger] s[i])) {
        Some("may only contain [a-z0-9/.-]"@)
    } else if s.last() == '/' || (exists|i: int|
        0 < i < s.len() && #[trigger] s[i] == '/' && s[i - 1] == '/') {
        Some("malformed path segments"@)
    } else {
        None
    }
}

/// Whether a string may name an asset.
pub open spec fn valid_denom(s: Seq<char>) -> bool {
    denom_complaint(s) is None
}

/// The text of a sovereign denom.
pub open spec fn sovereign_text(country_code: Seq<char>, unit: Seq<char>) -> Seq<char> {
    SOVEREIGN_PREFIX@ + country_code + "/"@ + unit
}

impl View for Denom {
    type V = Seq<char>;

    closed spec fn view(&self) -> Seq<char> {
        self.0@
    }
}

impl DeepView for Denom {
    type V = Seq<char>;

    open spec fn deep_view(&self) -> Seq<char> {
        self@
    }
}

impl Clone for Denom {
    fn clone(&self) -> (r: Self)
        ensures
            r == *self,
    {
        proof {
            use_type_invariant(self);
        }
        Denom(self.0.clone())
    }
}

impl PartialEq for Denom {
    fn eq(&self, other: &Self) -> (r: bool) {
        text::same_text(self.0.as_str(), other.0.as_str())
    }
}

impl vstd::std_specs::cmp::PartialEqSpecImpl for Denom {
    open spec fn obeys_eq_spec() -> bool {
        true
    }

    open spec fn eq_spec(&self, other: &Self) -> bool {
        self@ == other@
    }
}

impl Denom {
    /// Every denom obeys the naming rules.
    #[verifier::type_invariant]
    pub open spec fn well_formed(self) -> bool {
        valid_denom(self@)
    }

    /// The native staking, gas and governance token.
    pub fn native() -> (d: Self)
        ensures
            d@ == "afri"@,
    {
        proof {
            lemma_native_is_valid();
        }
        Denom(String::from_str("afri"))
    }

    /// Validate and wrap a denom string.
    ///
    /// Accepts lowercase ASCII alphanumerics plus `/`, `-`, `.`, and must begin
    /// with a letter. Uppercase is rejected outright rather than normalised. The
    /// error names the first rule violated.
    pub fn new(s: &str) -> (r: Result<Self, Error>)
        ensures
            match denom_complaint(s@) {
                None => r matches Ok(d) && d@ == s@,
                Some(reason) => r matches Err(e) && e.deep_view() == (Fault::InvalidDenom {
                    denom: s@,
                    reason,
                }),
            },
    {
        let len: usize = text::byte_len(s);
        if len < MIN_DENOM_LEN {
            return Err(Self::invalid(s, "shorter than 3 bytes"));
        }
        if len > MAX_DENOM_LEN {
            return Err(Self::invalid(s, "longer than 128 bytes"));
        }
        let cs = text::chars_of(s);
        if cs.len() == 0 || !('a' <= cs[0] && cs[0] <= 'z') {
            return Err(Self::invalid(s, "must start with a lowercase ASCII letter"));
        }
        let mut i: usize = 0;
        let mut doubled = false;
        while i < cs.len()
            invariant
                i <= cs@.len(),
                cs@ == s@,
                MIN_DENOM_LEN <= encode_utf8(s@).len() <= MAX_DENOM_LEN,
                s@.len() > 0,
                text::is_lower(s@[0]),
                forall|j: int| 0 <= j < i ==> denom_char(#[trigger] s@[j]),
                doubled == exists|j: int|
                    0 < j < i && #[trigger] s@[j] == '/' && s@[j - 1] == '/',
            decreases cs@.len() - i,
        {
            let c = cs[i];
            if !(('a' <= c && c <= 'z') || ('0' <= c && c <= '9') || c == '/' || c == '-' || c
                == '.') {
                assert(!denom_char(s@[i as int]));
                return Err(Self::invalid(s, "may only contain [a-z0-9/.-]"));
            }
            if i > 0 && c == '/' && cs[i - 1] == '/' {
                doubled = true;
                assert(s@[i as int] == '/' && s@[i - 1] == '/');
            }
            i += 1;
        }
        if doubled || cs[cs.len() - 1] == '/' {
            return Err(Self::invalid(s, "malformed path segments"));
        }
        Ok(Denom(String::from_str(s)))
    }

    fn invalid(s: &str, reason: &'static str) -> (e: Error)
        ensures
            e.deep_view() == (Fault::InvalidDenom { denom: s@, reason: reason@ }),
    {
        Error::InvalidDenom { denom: String::from_str(s), reason }
    }

    /// Build the denom for a sovereign stablecoin, e.g. `sov/ke/kes`.
    ///
    /// The country code must be two lowercase ASCII letters, and the resulting
    /// denom valid.
    pub fn sovereign(country_code: &str, unit: &str) -> (r: Result<Self, Error>)
        ensures
            ({
                let text = sovereign_text(country_code@, unit@);
                if !is_country(country_code@) {
                    r matches Err(e) && e.deep_view() == (Fault::InvalidDenom {
                        denom: country_code@,
                        reason:
                            "country code must be two lowercase ASCII letters (ISO 3166-1 alpha-2)"@,
                    })
                } else {
                    match denom_complaint(text) {
                        None => r matches Ok(d) && d@ == text,
                        Some(reason) => r matches Err(e) && e.deep_view() == (Fault::InvalidDenom {
                            denom: text,
                            reason,
                        }),
                    }
                }
            }),
    {
        let cs = text::chars_of(country_code);
        if cs.len() != 2 || !('a' <= cs[0] && cs[0] <= 'z') || !('a' <= cs[1] && cs[1] <= 'z') {
            return Err(
                Self::invalid(
                    country_code,
                    "country code must be two lowercase ASCII letters (ISO 3166-1 alpha-2)",
                ),
            );
        }
        let mut full = String::from_str(SOVEREIGN_PREFIX);
        full.append(country_code);
        full.append("/");
        full.append(unit);
        Self::new(full.as_str())
    }

    /// The underlying string.
    pub fn as_str(&self) -> (s: &str)
        ensures
            s@ == self@,
    {
        self.0.as_str()
    }

    /// The underlying string, owned.
    pub fn to_string(&self) -> (s: String)
        ensures
            s@ == self@,
    {
        self.0.clone()
    }

    /// Whether this is the native AFRI token.
    pub fn is_native(&self) -> (b: bool)
        ensures
            b == (self@ == "afri"@),
    {
        text::same_text(self.0.as_str(), "afri")
    }

    /// Whether this denom lives in the sovereign-issuer namespace.
    pub fn is_sovereign(&self) -> (b: bool)
        ensures
            b == SOVEREIGN_PREFIX@.is_prefix_of(self@),
    {
        text::has_prefix(self.0.as_str(), SOVEREIGN_PREFIX)
    }

    /// Whether this denom was minted by a smart contract.
    pub fn is_contract(&self) -> (b: bool)
        ensures
            b == CONTRACT_PREFIX@.is_prefix_of(self@),
    {
        text::has_prefix(self.0.as_str(), CONTRACT_PREFIX)
    }
}

/// Two lowercase ASCII letters.
pub open spec fn is_country(s: Seq<char>) -> bool {
    s.len() == 2 && text::is_lower(s[0]) && text::is_lower(s[1])
}

proof fn lemma_native_is_valid()
    ensures
        valid_denom("afri"@),
{
    reveal_strlit("afri");
    vstd::utf8::is_ascii_chars_encode_utf8("afri"@);
    assert(forall|i: int| 0 <= i < "afri"@.len() ==> denom_char(#[trigger] "afri"@[i]));
}

/// No denom is in two of the families: what renders as a national currency is
/// neither the native token nor a contract's asset.
pub proof fn law_namespaces_are_disjoint(s: Seq<char>)
    ensures
        !(SOVEREIGN_PREFIX@.is_prefix_of(s) && CONTRACT_PREFIX@.is_prefix_of(s)),
        !(SOVEREIGN_PREFIX@.is_prefix_of(s) && s == "afri"@),
        !(CONTRACT_PREFIX@.is_prefix_of(s) && s == "afri"@),
{
    reveal_strlit("sov/");
    reveal_strlit("cw/");
    reveal_strlit("afri");
    if SOVEREIGN_PREFIX@.is_prefix_of(s) {
        assert(s[0] == SOVEREIGN_PREFIX@[0]);
    }
    if CONTRACT_PREFIX@.is_prefix_of(s) {
        assert(s[0] == CONTRACT_PREFIX@[0]);
    }
}

/// A denom built for a country is in the sovereign namespace.
pub proof fn law_sovereign_denoms_are_namespaced(country_code: Seq<char>, unit: Seq<char>)
    ensures
        SOVEREIGN_PREFIX@.is_prefix_of(sovereign_text(country_code, unit)),
{
    assert(sovereign_text(country_code, unit).take(SOVEREIGN_PREFIX@.len() as int)
        =~= SOVEREIGN_PREFIX@);
}

impl Encode for Denom {
    open spec fn bytes_of(v: Seq<char>) -> Seq<u8> {
        String::bytes_of(v)
    }

    fn encode(&self, out: &mut Vec<u8>) {
        self.0.encode(out);
    }
}

/// A peer can put anything on the wire, so the rules hold on the way in too.
impl Decode for Denom {
    open spec fn parse(s: Seq<u8>) -> Parsed<Seq<char>> {
        String::parse(s).and_then(
            |v: Seq<char>, rest: Seq<u8>|
                match denom_complaint(v) {
                    None => Parsed { value: Ok(v), rest },
                    Some(reason) => fault(
                        CodecFault::Invalid((Fault::InvalidDenom { denom: v, reason }).text()),
                        rest,
                    ),
                },
        )
    }

    fn decode(r: &mut Reader<'_>) -> (res: Result<Self, CodecError>) {
        let s = String::decode(r)?;
        match Self::new(s.as_str()) {
            Ok(d) => Ok(d),
            Err(e) => Err(CodecError::Invalid(e.to_string())),
        }
    }
}

impl Canonical for Denom {
    open spec fn valid(v: Seq<char>) -> bool {
        valid_denom(v)
    }

    proof fn round_trip(v: Seq<char>, tail: Seq<u8>) {
        String::round_trip(v, tail);
    }

    proof fn one_encoding(s: Seq<u8>) {
        String::one_encoding(s);
    }
}

} // verus!
