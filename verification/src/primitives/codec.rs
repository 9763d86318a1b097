//! The canonical consensus codec.
//!
//! A blockchain hashes its own data structures, so the encoding is part of the
//! protocol:
//!
//! * fixed-width little-endian integers;
//! * a `u32` length prefix on all variable-length data;
//! * a `u8` discriminant in front of every enum variant;
//! * strict decoding: trailing bytes are an error ([`decode_exact`]).
//!
//! Every type's encoding is a function on its mathematical view
//! ([`Encode::bytes_of`]), and its decoder is a parser on byte sequences
//! ([`Decode::parse`]). [`Canonical`] states how the two fit: decoding what was
//! encoded gives the value back, and whatever decodes is the one encoding of the
//! value it decodes to.

use crate::primitives::text;
use vstd::prelude::*;

verus! {

/// Maximum length accepted for any single length-prefixed field (16 MiB).
///
/// This bounds the allocation a malicious peer can induce with a forged length
/// prefix.
pub const MAX_FIELD_LEN: u32 = 16 * 1024 * 1024;

/// Errors produced while decoding untrusted bytes.
#[derive(Debug, Clone, PartialEq, Eq)]
pub enum CodecError {
    /// The buffer ended before the value did.
    UnexpectedEof {
        /// Bytes the decoder asked for.
        wanted: usize,
        /// Bytes actually remaining.
        left: usize,
    },
    /// A length prefix exceeded [`MAX_FIELD_LEN`].
    LengthTooLarge {
        /// The offending declared length.
        len: u32,
    },
    /// An enum discriminant did not correspond to a known variant.
    UnknownDiscriminant {
        /// The unrecognised tag byte.
        tag: u8,
        /// Name of the type being decoded, for diagnostics.
        what: &'static str,
    },
    /// Bytes remained after a complete value was decoded.
    TrailingBytes {
        /// Number of unconsumed bytes.
        left: usize,
    },
    /// A field held bytes that are structurally valid but semantically illegal.
    Invalid(String),
}

/// The mathematical view of a [`CodecError`].
pub enum CodecFault {
    UnexpectedEof { wanted: nat, left: nat },
    LengthTooLarge { len: nat },
    UnknownDiscriminant { tag: u8, what: Seq<char> },
    TrailingBytes { left: nat },
    Invalid(Seq<char>),
}

impl DeepView for CodecError {
    type V = CodecFault;

    open spec fn deep_view(&self) -> CodecFault {
        match *self {
            CodecError::UnexpectedEof { wanted, left } => CodecFault::UnexpectedEof {
                wanted: wanted as nat,
                left: left as nat,
            },
            CodecError::LengthTooLarge { len } => CodecFault::LengthTooLarge { len: len as nat },
            CodecError::UnknownDiscriminant { tag, what } => CodecFault::UnknownDiscriminant {
                tag,
                what: what@,
            },
            CodecError::TrailingBytes { left } => CodecFault::TrailingBytes { left: left as nat },
            CodecError::Invalid(text) => CodecFault::Invalid(text@),
        }
    }
}

impl CodecFault {
    /// The sentence that describes a fault.
    pub open spec fn text(self) -> Seq<char> {
        match self {
            CodecFault::UnexpectedEof { wanted, left } => "unexpected end of input: wanted "@
                + text::decimal(wanted) + " more byte(s), "@ + text::decimal(left) + " left"@,
            CodecFault::LengthTooLarge { len } => "length prefix "@ + text::decimal(len)
                + " exceeds maximum 16777216"@,
            CodecFault::UnknownDiscriminant { tag, what } => "unknown discriminant "@
                + text::decimal(tag as nat) + " for "@ + what,
            CodecFault::TrailingBytes { left } => text::decimal(left)
                + " trailing byte(s) after value"@,
            CodecFault::Invalid(reason) => "invalid value: "@ + reason,
        }
    }
}

impl CodecError {
    /// The sentence that describes this error.
    pub fn to_string(&self) -> (s: String)
        ensures
            s@ == self.deep_view().text(),
    {
        let mut out = String::new();
        match self {
            CodecError::UnexpectedEof { wanted, left } => {
                out.append("unexpected end of input: wanted ");
                text::push_decimal(&mut out, *wanted as u128);
                out.append(" more byte(s), ");
                text::push_decimal(&mut out, *left as u128);
                out.append(" left");
            },
            CodecError::LengthTooLarge { len } => {
                out.append("length prefix ");
                text::push_decimal(&mut out, *len as u128);
                out.append(" exceeds maximum 16777216");
            },
            CodecError::UnknownDiscriminant { tag, what } => {
                out.append("unknown discriminant ");
                text::push_decimal(&mut out, *tag as u128);
                out.append(" for ");
                out.append(what);
            },
            CodecError::TrailingBytes { left } => {
                text::push_decimal(&mut out, *left as u128);
                out.append(" trailing byte(s) after value");
            },
            CodecError::Invalid(reason) => {
                out.append("invalid value: ");
                out.append(reason.as_str());
            },
        }
        out
    }
}

/// What a parser makes of a byte sequence: a value or a fault, and the bytes it
/// left unread.
pub struct Parsed<V> {
    pub value: Result<V, CodecFault>,
    pub rest: Seq<u8>,
}

impl<V> Parsed<V> {
    /// The same parse with its value transformed.
    pub open spec fn map<W>(self, f: spec_fn(V) -> W) -> Parsed<W> {
        Parsed {
            value: match self.value {
                Ok(v) => Ok(f(v)),
                Err(e) => Err(e),
            },
            rest: self.rest,
        }
    }

    /// Continue with the value and the bytes left.
    pub open spec fn and_then<W>(self, f: spec_fn(V, Seq<u8>) -> Parsed<W>) -> Parsed<W> {
        match self.value {
            Ok(v) => f(v, self.rest),
            Err(e) => Parsed { value: Err(e), rest: self.rest },
        }
    }
}

/// The mathematical view of what a decoder returned.
pub open spec fn outcome<T: DeepView>(r: Result<T, CodecError>) -> Result<T::V, CodecFault> {
    match r {
        Ok(v) => Ok(v.deep_view()),
        Err(e) => Err(e.deep_view()),
    }
}

/// A parse that ended in a fault.
pub open spec fn fault<V>(fault: CodecFault, rest: Seq<u8>) -> Parsed<V> {
    Parsed { value: Err(fault), rest }
}

/// Taking exactly `n` bytes off the front.
pub open spec fn parse_take(n: nat, s: Seq<u8>) -> Parsed<Seq<u8>> {
    if n <= s.len() {
        Parsed { value: Ok(s.take(n as int)), rest: s.skip(n as int) }
    } else {
        fault(CodecFault::UnexpectedEof { wanted: n, left: s.len() }, s)
    }
}

/// A value with a canonical byte encoding.
pub trait Encode: DeepView {
    /// The canonical encoding of a value.
    spec fn bytes_of(v: Self::V) -> Seq<u8>;

    /// Append the canonical encoding of `self` to `out`.
    fn encode(&self, out: &mut Vec<u8>)
        ensures
            final(out)@ == old(out)@ + Self::bytes_of(self.deep_view()),
    ;

    /// Convenience wrapper returning a fresh `Vec`.
    fn to_bytes(&self) -> (bytes: Vec<u8>)
        ensures
            bytes@ == Self::bytes_of(self.deep_view()),
    {
        let mut out: Vec<u8> = Vec::new();
        self.encode(&mut out);
        out
    }
}

/// A value that can be reconstructed from its canonical encoding.
pub trait Decode: DeepView + Sized {
    /// What decoding a byte sequence gives.
    spec fn parse(s: Seq<u8>) -> Parsed<Self::V>;

    /// Consume exactly one value from `r`.
    fn decode(r: &mut Reader<'_>) -> (res: Result<Self, CodecError>)
        ensures
            final(r).source() == old(r).source(),
            final(r).rest() == Self::parse(old(r).rest()).rest,
            outcome(res) == Self::parse(old(r).rest()).value,
    ;
}

/// The laws of the codec, for a type that is both encoded and decoded.
pub trait Canonical: Encode + Decode {
    /// The values the wire format admits.
    spec fn valid(v: Self::V) -> bool;

    /// Decoding an encoding gives the value back, and reads no further.
    proof fn round_trip(v: Self::V, tail: Seq<u8>)
        requires
            Self::valid(v),
        ensures
            Self::parse(Self::bytes_of(v) + tail) == (Parsed { value: Ok(v), rest: tail }),
    ;

    /// What decodes is a valid value, and the bytes read are its encoding: no
    /// value has a second spelling.
    proof fn one_encoding(s: Seq<u8>)
        ensures
            Self::parse(s).value matches Ok(v) ==> Self::valid(v) && s == Self::bytes_of(v)
                + Self::parse(s).rest,
    ;
}

/// What [`decode_exact`] gives: the parse must leave nothing unread.
pub open spec fn parse_exact<T: Decode>(s: Seq<u8>) -> Result<T::V, CodecFault> {
    let parsed = T::parse(s);
    match parsed.value {
        Err(e) => Err(e),
        Ok(v) => if parsed.rest.len() > 0 {
            Err(CodecFault::TrailingBytes { left: parsed.rest.len() })
        } else {
            Ok(v)
        },
    }
}

/// Decode a value and require that the whole input was consumed.
///
/// Accepting trailing bytes would let an attacker produce two distinct byte
/// strings that decode to the same transaction.
pub fn decode_exact<T: Decode>(bytes: &[u8]) -> (res: Result<T, CodecError>)
    ensures
        outcome(res) == parse_exact::<T>(bytes@),
{
    let mut r = Reader::new(bytes);
    let value = T::decode(&mut r)?;
    if !r.is_empty() {
        return Err(CodecError::TrailingBytes { left: r.remaining() });
    }
    Ok(value)
}

/// Decoding exactly the encoding of a valid value gives that value back.
pub proof fn law_decode_exact_inverts_encode<T: Canonical>(v: T::V)
    requires
        T::valid(v),
    ensures
        parse_exact::<T>(T::bytes_of(v)) == Ok::<T::V, CodecFault>(v),
{
    T::round_trip(v, Seq::empty());
    assert(T::bytes_of(v) + Seq::<u8>::empty() == T::bytes_of(v));
}

/// Only one byte string decodes to any given value: its encoding.
pub proof fn law_decode_exact_accepts_only_encodings<T: Canonical>(s: Seq<u8>)
    ensures
        parse_exact::<T>(s) matches Ok(v) ==> T::valid(v) && s == T::bytes_of(v),
{
    T::one_encoding(s);
    if parse_exact::<T>(s) is Ok {
        let v = T::parse(s).value->Ok_0;
        assert(T::bytes_of(v) + T::parse(s).rest == T::bytes_of(v));
    }
}

/// Distinct valid values have distinct encodings.
pub proof fn law_encoding_is_injective<T: Canonical>(a: T::V, b: T::V)
    requires
        T::valid(a),
        T::valid(b),
        T::bytes_of(a) == T::bytes_of(b),
    ensures
        a == b,
{
    law_decode_exact_inverts_encode::<T>(a);
    law_decode_exact_inverts_encode::<T>(b);
}

/// No encoding is a proper prefix of another: a stream of values splits in one
/// way only.
pub proof fn law_encoding_is_prefix_free<T: Canonical>(a: T::V, b: T::V, x: Seq<u8>, y: Seq<u8>)
    requires
        T::valid(a),
        T::valid(b),
        T::bytes_of(a) + x == T::bytes_of(b) + y,
    ensures
        a == b,
        x == y,
{
    T::round_trip(a, x);
    T::round_trip(b, y);
}

/// A cursor over a byte slice with bounds-checked reads.
#[derive(Debug)]
pub struct Reader<'a> {
    buf: &'a [u8],
    pos: usize,
}

impl<'a> Clone for Reader<'a> {
    fn clone(&self) -> (r: Self)
        ensures
            r == *self,
    {
        proof {
            use_type_invariant(self);
        }
        Reader { buf: self.buf, pos: self.pos }
    }
}

impl<'a> Reader<'a> {
    #[verifier::type_invariant]
    spec fn in_bounds(self) -> bool {
        self.pos <= self.buf@.len()
    }

    /// The bytes not yet consumed.
    pub closed spec fn rest(&self) -> Seq<u8> {
        self.buf@.skip(self.pos as int)
    }

    /// The bytes that the reader was made for.
    pub closed spec fn source(&self) -> Seq<u8> {
        self.buf@
    }

    /// How many bytes were consumed.
    pub open spec fn position(&self) -> nat {
        (self.source().len() - self.rest().len()) as nat
    }

    /// Wrap a byte slice.
    pub fn new(buf: &'a [u8]) -> (r: Self)
        ensures
            r.source() == buf@,
            r.rest() == buf@,
    {
        Self { buf, pos: 0 }
    }

    /// Bytes not yet consumed.
    pub fn remaining(&self) -> (n: usize)
        ensures
            n == self.rest().len(),
    {
        proof {
            use_type_invariant(self);
        }
        self.buf.len() - self.pos
    }

    /// Whether the input is fully consumed.
    pub fn is_empty(&self) -> (b: bool)
        ensures
            b == (self.rest().len() == 0),
    {
        self.remaining() == 0
    }

    /// Take exactly `n` bytes. Where fewer are left, nothing is consumed.
    pub fn take(&mut self, n: usize) -> (res: Result<&'a [u8], CodecError>)
        ensures
            final(self).source() == old(self).source(),
            n <= old(self).rest().len() ==> {
                &&& res matches Ok(bytes)
                &&& bytes@ == old(self).rest().take(n as int)
                &&& final(self).rest() == old(self).rest().skip(n as int)
            },
            n > old(self).rest().len() ==> {
                &&& res matches Err(e)
                &&& e.deep_view() == if old(self).position() + n > usize::MAX {
                    CodecFault::LengthTooLarge { len: u32::MAX as nat }
                } else {
                    CodecFault::UnexpectedEof { wanted: n as nat, left: old(self).rest().len() }
                }
                &&& *final(self) == *old(self)
            },
    {
        proof {
            use_type_invariant(&*self);
        }
        if self.pos.checked_add(n).is_none() {
            assert(self.buf.len() <= usize::MAX);
            return Err(CodecError::LengthTooLarge { len: u32::MAX });
        }
        self.advance(n)
    }

    /// Take `n` bytes, where the cursor cannot run past the end of memory.
    fn advance(&mut self, n: usize) -> (res: Result<&'a [u8], CodecError>)
        ensures
            final(self).source() == old(self).source(),
            final(self).rest() == parse_take(n as nat, old(self).rest()).rest,
            match res {
                Ok(bytes) => parse_take(n as nat, old(self).rest()).value == Ok::<
                    Seq<u8>,
                    CodecFault,
                >(bytes@),
                Err(e) => parse_take(n as nat, old(self).rest()).value == Err::<
                    Seq<u8>,
                    CodecFault,
                >(e.deep_view()) && *final(self) == *old(self),
            },
    {
        proof {
            use_type_invariant(&*self);
        }
        let left: usize = self.buf.len() - self.pos;
        if n > left {
            return Err(CodecError::UnexpectedEof { wanted: n, left });
        }
        let end: usize = self.pos + n;
        let bytes = &self.buf[self.pos..end];
        self.pos = end;
        assert(bytes@ =~= old(self).rest().take(n as int));
        assert(self.rest() =~= old(self).rest().skip(n as int));
        Ok(bytes)
    }

    /// Take the `n` bytes of a field whose length was bounds-checked.
    pub(crate) fn take_field(&mut self, n: usize) -> (res: Result<&'a [u8], CodecError>)
        ensures
            final(self).source() == old(self).source(),
            final(self).rest() == parse_take(n as nat, old(self).rest()).rest,
            match res {
                Ok(bytes) => parse_take(n as nat, old(self).rest()).value == Ok::<
                    Seq<u8>,
                    CodecFault,
                >(bytes@),
                Err(e) => parse_take(n as nat, old(self).rest()).value == Err::<
                    Seq<u8>,
                    CodecFault,
                >(e.deep_view()),
            },
    {
        self.advance(n)
    }

    /// Take exactly `N` bytes as a fixed-size array.
    pub fn take_array<const N: usize>(&mut self) -> (res: Result<[u8; N], CodecError>)
        ensures
            final(self).source() == old(self).source(),
            final(self).rest() == parse_take(N as nat, old(self).rest()).rest,
            match res {
                Ok(bytes) => parse_take(N as nat, old(self).rest()).value == Ok::<
                    Seq<u8>,
                    CodecFault,
                >(bytes@),
                Err(e) => parse_take(N as nat, old(self).rest()).value == Err::<
                    Seq<u8>,
                    CodecFault,
                >(e.deep_view()),
            },
    {
        let bytes = self.advance(N)?;
        let mut out: [u8; N] = [0u8;N];
        let mut i: usize = 0;
        while i < N
            invariant
                i <= N,
                bytes@.len() == N,
                forall|j: int| 0 <= j < i ==> out@[j] == bytes@[j],
            decreases N - i,
        {
            out[i] = bytes[i];
            i += 1;
        }
        assert(out@ =~= bytes@);
        Ok(out)
    }

    /// Read a length prefix, rejecting absurd values before allocating.
    pub fn take_len(&mut self) -> (res: Result<usize, CodecError>)
        ensures
            final(self).source() == old(self).source(),
            final(self).rest() == parse_len(old(self).rest()).rest,
            match res {
                Ok(n) => parse_len(old(self).rest()).value == Ok::<nat, CodecFault>(n as nat),
                Err(e) => parse_len(old(self).rest()).value == Err::<nat, CodecFault>(
                    e.deep_view(),
                ),
            },
    {
        let len: u32 = u32::decode(self)?;
        if len > MAX_FIELD_LEN {
            return Err(CodecError::LengthTooLarge { len });
        }
        Ok(len as usize)
    }
}

/// Reading a length prefix.
pub open spec fn parse_len(s: Seq<u8>) -> Parsed<nat> {
    u32::parse(s).and_then(
        |len: u32, rest: Seq<u8>|
            if len > MAX_FIELD_LEN {
                fault(CodecFault::LengthTooLarge { len: len as nat }, rest)
            } else {
                Parsed { value: Ok(len as nat), rest }
            },
    )
}

} // verus!
