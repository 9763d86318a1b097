//! Human-readable names and contact commitments.
//!
//! An alias resolves to an address; it never authorises anything.

use crate::crypto::hash::Hash32;
use crate::primitives::codec::{
    fault, Canonical, CodecError, CodecFault, Decode, Encode, Parsed, Reader,
};
use crate::primitives::error::{Error, Fault};
use crate::primitives::text;
use vstd::prelude::*;
use vstd::utf8::encode_utf8;

verus! {

/// Shortest permitted username, in characters.
pub const MIN_USERNAME_LEN: usize = 3;

/// Longest permitted username, in characters.
pub const MAX_USERNAME_LEN: usize = 32;

/// A validated username, without the `@` it is written with.
#[derive(Debug, Eq, PartialOrd, Ord, Hash)]
pub struct Username(String);

/// A character that may occur in a username.
pub open spec fn name_char(c: char) -> bool {
    text::is_lower(c) || text::is_digit(c) || c == '-'
}

/// Whether a string may be a username: few enough lowercase ASCII letters, digits
/// and hyphens, and not the name of the chain itself.
pub open spec fn valid_username(s: Seq<char>) -> bool {
    &&& MIN_USERNAME_LEN <= s.len() <= MAX_USERNAME_LEN
    &&& forall|i: int| 0 <= i < s.len() ==> name_char(#[trigger] s[i])
    &&& s != "afri"@
}

impl View for Username {
    type V = Seq<char>;

    closed spec fn view(&self) -> Seq<char> {
        self.0@
    }
}

impl DeepView for Username {
    type V = Seq<char>;

    open spec fn deep_view(&self) -> Seq<char> {
        self@
    }
}

impl Clone for Username {
    fn clone(&self) -> (r: Self)
        ensures
            r == *self,
    {
        proof {
            use_type_invariant(self);
        }
        Username(self.0.clone())
    }
}

impl PartialEq for Username {
    fn eq(&self, other: &Self) -> (r: bool) {
        text::same_text(self.0.as_str(), other.0.as_str())
    }
}

impl vstd::std_specs::cmp::PartialEqSpecImpl for Username {
    open spec fn obeys_eq_spec() -> bool {
        true
    }

    open spec fn eq_spec(&self, other: &Self) -> bool {
        self@ == other@
    }
}

fn is_valid_username(s: &str) -> (b: bool)
    ensures
        b == valid_username(s@),
{
    let chars = text::chars_of(s);
    if chars.len() < MIN_USERNAME_LEN || chars.len() > MAX_USERNAME_LEN {
        return false;
    }
    let mut i: usize = 0;
    while i < chars.len()
        invariant
            i <= chars@.len(),
            chars@ == s@,
            forall|j: int| 0 <= j < i ==> name_char(#[trigger] s@[j]),
        decreases chars@.len() - i,
    {
        let c = chars[i];
        if !('a' <= c && c <= 'z' || '0' <= c && c <= '9' || c == '-') {
            assert(!name_char(s@[i as int]));
            return false;
        }
        i += 1;
    }
    !text::same_text(s, "afri")
}

impl Username {
    /// Every username obeys the naming rules.
    #[verifier::type_invariant]
    pub open spec fn well_formed(self) -> bool {
        valid_username(self@)
    }

    /// Validate and wrap a name.
    pub fn new(s: &str) -> (r: Result<Self, Error>)
        ensures
            match r {
                Ok(name) => valid_username(s@) && name@ == s@,
                Err(e) => !valid_username(s@) && e.deep_view() == (Fault::Invalid {
                    what: "Username"@,
                }),
            },
    {
        if is_valid_username(s) {
            Ok(Username(String::from_str(s)))
        } else {
            Err(Error::Invalid { what: "Username" })
        }
    }

    /// The name, without the `@`.
    pub fn as_str(&self) -> (s: &str)
        ensures
            s@ == self@,
    {
        self.0.as_str()
    }

    /// The name as it is written, with the `@`.
    pub fn to_string(&self) -> (s: String)
        ensures
            s@ == "@"@ + self@,
    {
        let mut out = String::from_str("@");
        out.append(self.0.as_str());
        out
    }
}

impl Encode for Username {
    open spec fn bytes_of(v: Seq<char>) -> Seq<u8> {
        String::bytes_of(v)
    }

    fn encode(&self, out: &mut Vec<u8>) {
        self.0.encode(out);
    }
}

impl Decode for Username {
    open spec fn parse(s: Seq<u8>) -> Parsed<Seq<char>> {
        String::parse(s).and_then(
            |v: Seq<char>, rest: Seq<u8>|
                if valid_username(v) {
                    Parsed { value: Ok(v), rest }
                } else {
                    fault(CodecFault::Invalid("invalid username"@), rest)
                },
        )
    }

    fn decode(r: &mut Reader<'_>) -> (res: Result<Self, CodecError>) {
        let s = String::decode(r)?;
        if is_valid_username(s.as_str()) {
            Ok(Username(s))
        } else {
            Err(CodecError::Invalid(String::from_str("invalid username")))
        }
    }
}

impl Canonical for Username {
    open spec fn valid(v: Seq<char>) -> bool {
        valid_username(v)
    }

    proof fn round_trip(v: Seq<char>, tail: Seq<u8>) {
        lemma_username_is_ascii(v);
        String::round_trip(v, tail);
    }

    proof fn one_encoding(s: Seq<u8>) {
        String::one_encoding(s);
    }
}

/// A username takes one byte per character.
pub proof fn lemma_username_is_ascii(v: Seq<char>)
    requires
        valid_username(v),
    ensures
        encode_utf8(v).len() == v.len(),
{
    assert forall|i: int| 0 <= i < v.len() implies (#[trigger] v[i] as u32) < 128 by {
        assert(name_char(v[i]));
    }
    vstd::utf8::is_ascii_chars_encode_utf8(v);
}

/// A commitment to a phone number or an email address.
#[derive(Debug, Clone, Copy, PartialEq, Eq, PartialOrd, Ord, Hash)]
pub struct ContactCommitment(pub Hash32);

impl DeepView for ContactCommitment {
    type V = ContactCommitment;

    open spec fn deep_view(&self) -> ContactCommitment {
        *self
    }
}

impl ContactCommitment {
    /// The digest that is committed to.
    pub fn as_hash(&self) -> (h: &Hash32)
        ensures
            *h == self.0,
    {
        &self.0
    }
}

impl Encode for ContactCommitment {
    open spec fn bytes_of(v: ContactCommitment) -> Seq<u8> {
        Hash32::bytes_of(v.0)
    }

    fn encode(&self, out: &mut Vec<u8>) {
        self.0.encode(out);
    }
}

impl Decode for ContactCommitment {
    open spec fn parse(s: Seq<u8>) -> Parsed<ContactCommitment> {
        Hash32::parse(s).map(|h: Hash32| ContactCommitment(h))
    }

    fn decode(r: &mut Reader<'_>) -> (res: Result<Self, CodecError>) {
        Ok(ContactCommitment(Hash32::decode(r)?))
    }
}

impl Canonical for ContactCommitment {
    open spec fn valid(v: ContactCommitment) -> bool {
        true
    }

    proof fn round_trip(v: ContactCommitment, tail: Seq<u8>) {
        Hash32::round_trip(v.0, tail);
    }

    proof fn one_encoding(s: Seq<u8>) {
        Hash32::one_encoding(s);
    }
}

} // verus!
