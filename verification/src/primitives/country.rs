//! ISO 3166-1 alpha-2 country codes.

use crate::primitives::codec::{
    fault, parse_take, Canonical, CodecError, CodecFault, Decode, Encode, Parsed, Reader,
};
use crate::primitives::error::{Error, Fault};
use crate::primitives::wire;
use vstd::prelude::*;
use vstd::utf8::encode_utf8;

verus! {

/// An ISO 3166-1 alpha-2 country code, lowercase.
///
/// Exactly two lowercase ASCII letters, checked on construction and on decode: a
/// code that could be written two ways is a value with two encodings, and this
/// one is hashed into the state root.
#[derive(Debug, Clone, Copy, Eq, PartialOrd, Ord, Hash)]
pub struct CountryCode([u8; 2]);

/// A lowercase ASCII letter, as a byte.
pub open spec fn lower_byte(b: u8) -> bool {
    97 <= b <= 122
}

/// Two lowercase ASCII letters.
pub open spec fn valid_country(code: Seq<u8>) -> bool {
    code.len() == 2 && lower_byte(code[0]) && lower_byte(code[1])
}

impl View for CountryCode {
    type V = Seq<u8>;

    closed spec fn view(&self) -> Seq<u8> {
        self.0@
    }
}

impl DeepView for CountryCode {
    type V = Seq<u8>;

    open spec fn deep_view(&self) -> Seq<u8> {
        self@
    }
}

impl PartialEq for CountryCode {
    fn eq(&self, other: &Self) -> (r: bool) {
        let same = self.0[0] == other.0[0] && self.0[1] == other.0[1];
        proof {
            if same {
                assert(self.0@ =~= other.0@);
            }
        }
        same
    }
}

impl vstd::std_specs::cmp::PartialEqSpecImpl for CountryCode {
    open spec fn obeys_eq_spec() -> bool {
        true
    }

    open spec fn eq_spec(&self, other: &Self) -> bool {
        self@ == other@
    }
}

impl CountryCode {
    /// Every country code is two lowercase ASCII letters.
    #[verifier::type_invariant]
    pub open spec fn well_formed(self) -> bool {
        valid_country(self@)
    }

    /// Validate and wrap a two-letter code.
    ///
    /// Uppercase is refused rather than folded.
    pub fn new(s: &str) -> (r: Result<Self, Error>)
        ensures
            match r {
                Ok(c) => valid_country(encode_utf8(s@)) && c@ == encode_utf8(s@),
                Err(e) => !valid_country(encode_utf8(s@)) && e.deep_view() == (Fault::Invalid {
                    what: "CountryCode"@,
                }),
            },
    {
        let bytes = s.as_bytes();
        if bytes.len() != 2 || !is_lower_byte(bytes[0]) || !is_lower_byte(bytes[1]) {
            return Err(Error::Invalid { what: "CountryCode" });
        }
        let code: [u8; 2] = [bytes[0], bytes[1]];
        assert(code@ =~= bytes@);
        Ok(CountryCode(code))
    }

    /// The code as a string.
    pub fn as_str(&self) -> (s: String)
        ensures
            encode_utf8(s@) == self@,
    {
        proof {
            use_type_invariant(self);
        }
        let a = self.0[0] as char;
        let b = self.0[1] as char;
        let mut s = String::new();
        s.push(a);
        s.push(b);
        proof {
            assert(s@ =~= seq![a, b]);
            vstd::utf8::is_ascii_chars_encode_utf8(s@);
            assert(encode_utf8(s@) =~= self@);
        }
        s
    }

    /// The code as a string.
    pub fn to_string(&self) -> (s: String)
        ensures
            encode_utf8(s@) == self@,
    {
        self.as_str()
    }
}

fn is_lower_byte(b: u8) -> (r: bool)
    ensures
        r == lower_byte(b),
{
    97 <= b && b <= 122
}

impl Encode for CountryCode {
    open spec fn bytes_of(v: Seq<u8>) -> Seq<u8> {
        v
    }

    fn encode(&self, out: &mut Vec<u8>) {
        wire::push_bytes(out, &self.0);
    }
}

impl Decode for CountryCode {
    open spec fn parse(s: Seq<u8>) -> Parsed<Seq<u8>> {
        parse_take(2, s).and_then(
            |code: Seq<u8>, rest: Seq<u8>|
                if valid_country(code) {
                    Parsed { value: Ok(code), rest }
                } else {
                    fault(
                        CodecFault::Invalid("country code must be two lowercase ASCII letters"@),
                        rest,
                    )
                },
        )
    }

    fn decode(r: &mut Reader<'_>) -> (res: Result<Self, CodecError>) {
        let bytes = r.take_array::<2>()?;
        if !is_lower_byte(bytes[0]) || !is_lower_byte(bytes[1]) {
            return Err(
                CodecError::Invalid(
                    String::from_str("country code must be two lowercase ASCII letters"),
                ),
            );
        }
        Ok(CountryCode(bytes))
    }
}

impl Canonical for CountryCode {
    open spec fn valid(v: Seq<u8>) -> bool {
        valid_country(v)
    }

    proof fn round_trip(v: Seq<u8>, tail: Seq<u8>) {
        wire::lemma_split_concat(v, tail);
    }

    proof fn one_encoding(s: Seq<u8>) {
        if 2 <= s.len() {
            assert(s =~= s.take(2) + s.skip(2));
        }
    }
}

} // verus!
