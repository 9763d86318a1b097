//! Account addresses.

use crate::crypto::hash::{digest, hash, Domain};
use crate::crypto::keys::{CryptoError, PublicKey};
use crate::primitives::codec::{
    parse_take, Canonical, CodecError, Decode, Encode, Parsed, Reader,
};
use crate::primitives::text;
use crate::primitives::wire;
use vstd::prelude::*;

verus! {

/// The human-readable part of an address in text form.
pub const ADDRESS_PREFIX: &'static str = "afri";

/// The bech32m text of some bytes under a human-readable part, as
/// `bech32::encode::<bech32::Bech32m>` writes it.
pub uninterp spec fn bech32m_text(hrp: Seq<char>, data: Seq<u8>) -> Option<Seq<char>>;

/// The human-readable part, in lowercase, and the bytes of a bech32m text, as
/// `bech32::primitives::decode::CheckedHrpstring::new::<bech32::Bech32m>` reads it.
pub uninterp spec fn bech32m_parts(s: Seq<char>) -> Option<(Seq<char>, Seq<u8>)>;

/// A human-readable part made of lowercase letters.
pub open spec fn lowercase_hrp(hrp: Seq<char>) -> bool {
    &&& 1 <= hrp.len() <= 83
    &&& forall|i: int| 0 <= i < hrp.len() ==> text::is_lower(#[trigger] hrp[i])
}

/// Only lowercase letters and digits, the first of them a lowercase letter.
pub open spec fn plain_text(s: Seq<char>) -> bool {
    &&& s.len() > 0
    &&& text::is_lower(s[0])
    &&& forall|i: int|
        0 <= i < s.len() ==> text::is_lower(#[trigger] s[i]) || text::is_digit(s[i])
}

/// `bech32::encode::<bech32::Bech32m>`, under a parsed human-readable part: a
/// function of both, which does not fail on a lowercase part and few enough bytes.
/// What it then writes is made of lowercase letters and digits, starts as the part
/// does, and reads back as the part and the bytes.
#[verifier::external_body]
fn bech32m_encode(hrp: &str, data: &[u8]) -> (r: Option<String>)
    ensures
        r.deep_view() == bech32m_text(hrp@, data@),
        lowercase_hrp(hrp@) && data@.len() <= 400 ==> r is Some,
        lowercase_hrp(hrp@) && r is Some ==> plain_text(r->0@) && bech32m_parts(r->0@) == Some(
            (hrp@, data@),
        ),
{
    let prefix = bech32::Hrp::parse(hrp).ok()?;
    bech32::encode::<bech32::Bech32m>(prefix, data).ok()
}

/// `bech32::primitives::decode::CheckedHrpstring::new::<bech32::Bech32m>`: a function
/// of the text.
#[verifier::external_body]
fn bech32m_decode(s: &str) -> (r: Option<(String, Vec<u8>)>)
    ensures
        r.deep_view() == bech32m_parts(s@),
{
    let read = bech32::primitives::decode::CheckedHrpstring::new::<bech32::Bech32m>(s).ok()?;
    Some((read.hrp().to_lowercase(), read.byte_iter().collect()))
}

/// A 20-byte account address.
#[derive(Debug, Clone, Copy, Eq, PartialOrd, Ord, Hash)]
pub struct Address(pub [u8; 20]);

impl PartialEq for Address {
    fn eq(&self, other: &Self) -> (r: bool) {
        let same = text::same_bytes(&self.0, &other.0);
        proof {
            if same {
                assert(self.0 =~= other.0);
            }
        }
        same
    }
}

impl vstd::std_specs::cmp::PartialEqSpecImpl for Address {
    open spec fn obeys_eq_spec() -> bool {
        true
    }

    open spec fn eq_spec(&self, other: &Self) -> bool {
        *self == *other
    }
}

impl DeepView for Address {
    type V = Address;

    open spec fn deep_view(&self) -> Address {
        *self
    }
}

/// The address with the given bytes, of which there are 20.
pub open spec fn address_of_bytes(bytes: Seq<u8>) -> Address {
    Address(wire::array_of::<20>(bytes))
}

/// The address that some bytes hash to in a domain: the first 20 bytes of their
/// digest.
pub open spec fn address_in(domain: Domain, bytes: Seq<u8>) -> Address {
    address_of_bytes(digest(domain, bytes).0@.take(20))
}

/// The address that a public key controls when it is made for it.
pub open spec fn key_address(key: Seq<u8>) -> Address {
    address_in(Domain::Address, key)
}

/// The bech32m text of an address.
pub open spec fn address_text(a: Address) -> Option<Seq<char>> {
    bech32m_text(ADDRESS_PREFIX@, a.0@)
}

/// The address that a text names, if it is the bech32m form of one of this chain.
pub open spec fn address_named(s: Seq<char>) -> Option<Address> {
    match bech32m_parts(s) {
        Some((hrp, data)) => if hrp == ADDRESS_PREFIX@ && data.len() == 20 {
            Some(address_of_bytes(data))
        } else {
            None
        },
        None => None,
    }
}

impl Address {
    /// The address that bytes hash to in a domain.
    pub fn derived(domain: Domain, bytes: &[u8]) -> (a: Self)
        ensures
            a == address_in(domain, bytes@),
    {
        let h = hash(domain, bytes);
        let mut out: [u8; 20] = [0u8;20];
        let mut i: usize = 0;
        while i < 20
            invariant
                i <= 20,
                forall|j: int| 0 <= j < i ==> out@[j] == h.0@[j],
            decreases 20 - i,
        {
            out[i] = h.0[i];
            i += 1;
        }
        proof {
            assert(out@ =~= h.0@.take(20));
            wire::lemma_array_of::<20>(h.0@.take(20));
            assert(out =~= address_of_bytes(h.0@.take(20)).0);
        }
        Address(out)
    }

    /// The address of a public key.
    pub fn from_public_key(key: &PublicKey) -> (a: Self)
        ensures
            a == key_address(key@),
    {
        Self::derived(Domain::Address, key.as_bytes())
    }

    /// The raw bytes.
    pub fn as_bytes(&self) -> (b: &[u8; 20])
        ensures
            *b == self.0,
    {
        &self.0
    }

    /// The bech32m text of this address.
    pub fn to_bech32(&self) -> (r: Result<String, CryptoError>)
        ensures
            r is Ok,
            address_text(*self) == Some(r->Ok_0@),
            address_named(r->Ok_0@) == Some(*self),
            plain_text(r->Ok_0@),
    {
        proof {
            reveal_strlit("afri");
            assert(lowercase_hrp("afri"@));
        }
        let s = bech32m_encode(ADDRESS_PREFIX, &self.0);
        proof {
            wire::lemma_array_of::<20>(self.0@);
            assert(self.0 =~= address_of_bytes(self.0@).0);
        }
        match s {
            Some(s) => Ok(s),
            None => Err(CryptoError::MalformedAddress),
        }
    }

    /// The bech32m text of this address.
    pub fn to_string(&self) -> (s: String)
        ensures
            address_text(*self) == Some(s@),
            address_named(s@) == Some(*self),
            plain_text(s@),
    {
        match self.to_bech32() {
            Ok(s) => s,
            Err(_) => String::new(),
        }
    }

    /// Read an address from its bech32m text.
    pub fn from_bech32(s: &str) -> (r: Result<Self, CryptoError>)
        ensures
            match address_named(s@) {
                Some(a) => r == Ok::<Address, CryptoError>(a),
                None => r == Err::<Address, CryptoError>(CryptoError::MalformedAddress),
            },
    {
        match bech32m_decode(s) {
            None => Err(CryptoError::MalformedAddress),
            Some((hrp, data)) => {
                assert(data.deep_view() =~= data@);
                Self::from_parts(hrp.as_str(), data.as_slice())
            },
        }
    }

    /// The address in the parts of a bech32m text.
    pub fn from_parts(hrp: &str, data: &[u8]) -> (r: Result<Self, CryptoError>)
        ensures
            r == if hrp@ == ADDRESS_PREFIX@ && data@.len() == 20 {
                Ok::<Address, CryptoError>(address_of_bytes(data@))
            } else {
                Err(CryptoError::MalformedAddress)
            },
    {
        if !text::same_text(hrp, ADDRESS_PREFIX) || data.len() != 20 {
            return Err(CryptoError::MalformedAddress);
        }
        let mut out: [u8; 20] = [0u8;20];
        let mut i: usize = 0;
        while i < 20
            invariant
                i <= 20,
                data@.len() == 20,
                forall|j: int| 0 <= j < i ==> out@[j] == data@[j],
            decreases 20 - i,
        {
            out[i] = data[i];
            i += 1;
        }
        proof {
            assert(out@ =~= data@);
            wire::lemma_array_of::<20>(data@);
            assert(out =~= address_of_bytes(data@).0);
        }
        Ok(Address(out))
    }
}

impl Encode for Address {
    open spec fn bytes_of(v: Address) -> Seq<u8> {
        v.0@
    }

    fn encode(&self, out: &mut Vec<u8>) {
        wire::push_bytes(out, &self.0);
    }
}

impl Decode for Address {
    open spec fn parse(s: Seq<u8>) -> Parsed<Address> {
        parse_take(20, s).map(|bytes: Seq<u8>| address_of_bytes(bytes))
    }

    fn decode(r: &mut Reader<'_>) -> (res: Result<Self, CodecError>) {
        let bytes = r.take_array::<20>()?;
        let address = Address(bytes);
        proof {
            wire::lemma_array_of::<20>(bytes@);
            assert(address.0 =~= address_of_bytes(bytes@).0);
        }
        Ok(address)
    }
}

impl Canonical for Address {
    open spec fn valid(v: Address) -> bool {
        true
    }

    proof fn round_trip(v: Address, tail: Seq<u8>) {
        wire::lemma_split_concat(v.0@, tail);
        wire::lemma_array_of::<20>(v.0@);
        assert(v.0 =~= address_of_bytes(v.0@).0);
    }

    proof fn one_encoding(s: Seq<u8>) {
        if 20 <= s.len() {
            assert(s =~= s.take(20) + s.skip(20));
            wire::lemma_array_of::<20>(s.take(20));
        }
    }
}

} // verus!
