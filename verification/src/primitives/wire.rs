//! Encodings of the built-in types: integers, booleans, text, options, lists and
//! pairs.

use crate::primitives::codec::{
    fault, parse_len, parse_take, Canonical, CodecError, CodecFault, Decode, Encode, Parsed,
    Reader, MAX_FIELD_LEN,
};
use crate::primitives::text;
use vstd::prelude::*;
use vstd::utf8::{decode_utf8, encode_utf8, valid_utf8};

verus! {

/// Concatenation associates to the right.
pub broadcast proof fn lemma_concat_assoc(a: Seq<u8>, b: Seq<u8>, c: Seq<u8>)
    ensures
        #[trigger] ((a + b) + c) == a + (b + c),
{
    assert(((a + b) + c) =~= a + (b + c));
}

/// Splitting a concatenation where it was joined gives the two halves back.
pub proof fn lemma_split_concat(a: Seq<u8>, b: Seq<u8>)
    ensures
        (a + b).take(a.len() as int) == a,
        (a + b).skip(a.len() as int) == b,
{
    assert((a + b).take(a.len() as int) =~= a);
    assert((a + b).skip(a.len() as int) =~= b);
}

/// The array of zero bytes.
pub open spec fn zeros<const N: usize>() -> [u8; N] {
    [0u8;N]
}

/// The array whose first `k` bytes come from a sequence; the others are zero.
pub open spec fn array_filled<const N: usize>(bytes: Seq<u8>, k: nat) -> [u8; N]
    decreases k,
{
    if k == 0 {
        zeros::<N>()
    } else {
        vstd::array::spec_array_update(
            array_filled::<N>(bytes, (k - 1) as nat),
            k - 1,
            bytes[k - 1],
        )
    }
}

/// The array with the bytes of a sequence of its length.
pub open spec fn array_of<const N: usize>(bytes: Seq<u8>) -> [u8; N] {
    array_filled::<N>(bytes, N as nat)
}

proof fn lemma_array_filled<const N: usize>(bytes: Seq<u8>, k: nat)
    requires
        k <= N,
        bytes.len() == N,
    ensures
        forall|i: int| 0 <= i < k ==> array_filled::<N>(bytes, k)@[i] == bytes[i],
    decreases k,
{
    if k > 0 {
        lemma_array_filled::<N>(bytes, (k - 1) as nat);
        assert(array_filled::<N>(bytes, k)@ == array_filled::<N>(bytes, (k - 1) as nat)@.update(
            k - 1,
            bytes[k - 1],
        ));
    }
}

/// Every sequence of the right length is the contents of an array.
pub proof fn lemma_array_of<const N: usize>(bytes: Seq<u8>)
    requires
        bytes.len() == N,
    ensures
        array_of::<N>(bytes)@ == bytes,
{
    lemma_array_filled::<N>(bytes, N as nat);
    assert(array_of::<N>(bytes)@ =~= bytes);
}

// ---------------------------------------------------------------------------
// Integers
// ---------------------------------------------------------------------------

/// The `width` low-order bytes of a number, least significant first.
pub open spec fn le_bytes(n: nat, width: nat) -> Seq<u8>
    decreases width,
{
    if width == 0 {
        Seq::empty()
    } else {
        seq![(n % 256) as u8] + le_bytes(n / 256, (width - 1) as nat)
    }
}

/// The number whose bytes, least significant first, are `s`.
pub open spec fn le_value(s: Seq<u8>) -> nat
    decreases s.len(),
{
    if s.len() == 0 {
        0
    } else {
        s[0] as nat + 256 * le_value(s.drop_first())
    }
}

/// How many numbers `width` bytes can hold.
pub open spec fn le_span(width: nat) -> nat
    decreases width,
{
    if width == 0 {
        1
    } else {
        256 * le_span((width - 1) as nat)
    }
}

pub proof fn lemma_le_bytes_len(n: nat, width: nat)
    ensures
        le_bytes(n, width).len() == width,
    decreases width,
{
    if width > 0 {
        lemma_le_bytes_len(n / 256, (width - 1) as nat);
    }
}

/// Reading back the bytes of a number that fits gives the number.
pub proof fn lemma_le_value_of_bytes(n: nat, width: nat)
    requires
        n < le_span(width),
    ensures
        le_value(le_bytes(n, width)) == n,
    decreases width,
{
    if width > 0 {
        lemma_le_value_of_bytes(n / 256, (width - 1) as nat);
        assert(le_bytes(n, width).drop_first() =~= le_bytes(n / 256, (width - 1) as nat));
    }
}

/// Every byte string is the bytes of the number it denotes.
pub proof fn lemma_le_bytes_of_value(s: Seq<u8>)
    ensures
        le_bytes(le_value(s), s.len()) == s,
        le_value(s) < le_span(s.len()),
    decreases s.len(),
{
    if s.len() > 0 {
        lemma_le_bytes_of_value(s.drop_first());
        assert(s =~= seq![s[0]] + s.drop_first());
        assert(le_value(s) % 256 == s[0] as nat);
        assert(le_value(s) / 256 == le_value(s.drop_first()));
    } else {
        assert(s =~= Seq::<u8>::empty());
    }
}

/// The ranges of the integer types.
pub proof fn lemma_le_spans()
    ensures
        le_span(1) == 0x100,
        le_span(2) == 0x1_0000,
        le_span(4) == 0x1_0000_0000,
        le_span(8) == 0x1_0000_0000_0000_0000,
        le_span(16) == 0x1_0000_0000_0000_0000_0000_0000_0000_0000,
{
    reveal_with_fuel(le_span, 17);
}

/// Append the `width` low-order bytes of `n`.
fn push_le(n: u128, width: usize, out: &mut Vec<u8>)
    ensures
        final(out)@ == old(out)@ + le_bytes(n as nat, width as nat),
    decreases width,
{
    if width > 0 {
        out.push((n % 256) as u8);
        push_le(n / 256, width - 1, out);
        assert(out@ =~= old(out)@ + le_bytes(n as nat, width as nat));
    } else {
        assert(out@ =~= old(out)@ + Seq::<u8>::empty());
    }
}

/// The number that up to sixteen bytes denote.
fn read_le(s: &[u8]) -> (n: u128)
    requires
        s@.len() <= 16,
    ensures
        n == le_value(s@),
{
    let mut i: usize = s.len();
    let mut value: u128 = 0;
    assert(s@.skip(i as int) =~= Seq::<u8>::empty());
    while i > 0
        invariant
            i <= s@.len() <= 16,
            value == le_value(s@.skip(i as int)),
        decreases i,
    {
        i -= 1;
        proof {
            let tail = s@.skip(i as int);
            assert(tail.drop_first() =~= s@.skip(i as int + 1));
            lemma_le_bytes_of_value(tail);
            lemma_le_span_monotone(tail.len(), 16);
            lemma_le_spans();
        }
        value = (s[i] as u128) + 256 * value;
    }
    assert(s@.skip(0) =~= s@);
    value
}

proof fn lemma_le_span_monotone(a: nat, b: nat)
    requires
        a <= b,
    ensures
        le_span(a) <= le_span(b),
        0 < le_span(a),
    decreases b,
{
    if a < b {
        lemma_le_span_monotone(a, (b - 1) as nat);
    } else if a > 0 {
        lemma_le_span_monotone((a - 1) as nat, (a - 1) as nat);
    }
}

/// Reading an unsigned integer of `width` bytes.
pub open spec fn parse_le(width: nat, s: Seq<u8>) -> Parsed<nat> {
    parse_take(width, s).map(|bytes: Seq<u8>| le_value(bytes))
}

/// A number that fits is read back from its bytes, whatever follows them.
pub proof fn lemma_parse_le_round_trip(n: nat, width: nat, tail: Seq<u8>)
    requires
        n < le_span(width),
    ensures
        parse_le(width, le_bytes(n, width) + tail) == (Parsed { value: Ok(n), rest: tail }),
{
    lemma_le_bytes_len(n, width);
    lemma_split_concat(le_bytes(n, width), tail);
    lemma_le_value_of_bytes(n, width);
}

/// What reads as a number is that number's bytes.
pub proof fn lemma_parse_le_one_encoding(width: nat, s: Seq<u8>)
    ensures
        parse_le(width, s).value matches Ok(n) ==> n < le_span(width) && s == le_bytes(n, width)
            + parse_le(width, s).rest,
{
    if width <= s.len() {
        let bytes = s.take(width as int);
        lemma_le_bytes_of_value(bytes);
        assert(s =~= bytes + s.skip(width as int));
    }
}

impl Encode for u8 {
    open spec fn bytes_of(v: u8) -> Seq<u8> {
        le_bytes(v as nat, 1)
    }

    fn encode(&self, out: &mut Vec<u8>) {
        push_le(*self as u128, 1, out);
    }
}

impl Decode for u8 {
    open spec fn parse(s: Seq<u8>) -> Parsed<u8> {
        parse_le(1, s).map(|n: nat| n as u8)
    }

    fn decode(r: &mut Reader<'_>) -> (res: Result<Self, CodecError>) {
        let bytes = r.take_array::<1>()?;
        proof {
            lemma_le_bytes_of_value(bytes@);
            lemma_le_spans();
        }
        Ok(read_le(&bytes) as u8)
    }
}

impl Canonical for u8 {
    open spec fn valid(v: u8) -> bool {
        true
    }

    proof fn round_trip(v: u8, tail: Seq<u8>) {
        lemma_le_spans();
        lemma_parse_le_round_trip(v as nat, 1, tail);
    }

    proof fn one_encoding(s: Seq<u8>) {
        lemma_le_spans();
        lemma_parse_le_one_encoding(1, s);
    }
}

impl Encode for u16 {
    open spec fn bytes_of(v: u16) -> Seq<u8> {
        le_bytes(v as nat, 2)
    }

    fn encode(&self, out: &mut Vec<u8>) {
        push_le(*self as u128, 2, out);
    }
}

impl Decode for u16 {
    open spec fn parse(s: Seq<u8>) -> Parsed<u16> {
        parse_le(2, s).map(|n: nat| n as u16)
    }

    fn decode(r: &mut Reader<'_>) -> (res: Result<Self, CodecError>) {
        let bytes = r.take_array::<2>()?;
        proof {
            lemma_le_bytes_of_value(bytes@);
            lemma_le_spans();
        }
        Ok(read_le(&bytes) as u16)
    }
}

impl Canonical for u16 {
    open spec fn valid(v: u16) -> bool {
        true
    }

    proof fn round_trip(v: u16, tail: Seq<u8>) {
        lemma_le_spans();
        lemma_parse_le_round_trip(v as nat, 2, tail);
    }

    proof fn one_encoding(s: Seq<u8>) {
        lemma_le_spans();
        lemma_parse_le_one_encoding(2, s);
    }
}

impl Encode for u32 {
    open spec fn bytes_of(v: u32) -> Seq<u8> {
        le_bytes(v as nat, 4)
    }

    fn encode(&self, out: &mut Vec<u8>) {
        push_le(*self as u128, 4, out);
    }
}

impl Decode for u32 {
    open spec fn parse(s: Seq<u8>) -> Parsed<u32> {
        parse_le(4, s).map(|n: nat| n as u32)
    }

    fn decode(r: &mut Reader<'_>) -> (res: Result<Self, CodecError>) {
        let bytes = r.take_array::<4>()?;
        proof {
            lemma_le_bytes_of_value(bytes@);
            lemma_le_spans();
        }
        Ok(read_le(&bytes) as u32)
    }
}

impl Canonical for u32 {
    open spec fn valid(v: u32) -> bool {
        true
    }

    proof fn round_trip(v: u32, tail: Seq<u8>) {
        lemma_le_spans();
        lemma_parse_le_round_trip(v as nat, 4, tail);
    }

    proof fn one_encoding(s: Seq<u8>) {
        lemma_le_spans();
        lemma_parse_le_one_encoding(4, s);
    }
}

impl Encode for u64 {
    open spec fn bytes_of(v: u64) -> Seq<u8> {
        le_bytes(v as nat, 8)
    }

    fn encode(&self, out: &mut Vec<u8>) {
        push_le(*self as u128, 8, out);
    }
}

impl Decode for u64 {
    open spec fn parse(s: Seq<u8>) -> Parsed<u64> {
        parse_le(8, s).map(|n: nat| n as u64)
    }

    fn decode(r: &mut Reader<'_>) -> (res: Result<Self, CodecError>) {
        let bytes = r.take_array::<8>()?;
        proof {
            lemma_le_bytes_of_value(bytes@);
            lemma_le_spans();
        }
        Ok(read_le(&bytes) as u64)
    }
}

impl Canonical for u64 {
    open spec fn valid(v: u64) -> bool {
        true
    }

    proof fn round_trip(v: u64, tail: Seq<u8>) {
        lemma_le_spans();
        lemma_parse_le_round_trip(v as nat, 8, tail);
    }

    proof fn one_encoding(s: Seq<u8>) {
        lemma_le_spans();
        lemma_parse_le_one_encoding(8, s);
    }
}

impl Encode for u128 {
    open spec fn bytes_of(v: u128) -> Seq<u8> {
        le_bytes(v as nat, 16)
    }

    fn encode(&self, out: &mut Vec<u8>) {
        push_le(*self, 16, out);
    }
}

impl Decode for u128 {
    open spec fn parse(s: Seq<u8>) -> Parsed<u128> {
        parse_le(16, s).map(|n: nat| n as u128)
    }

    fn decode(r: &mut Reader<'_>) -> (res: Result<Self, CodecError>) {
        let bytes = r.take_array::<16>()?;
        proof {
            lemma_le_bytes_of_value(bytes@);
            lemma_le_spans();
        }
        Ok(read_le(&bytes))
    }
}

impl Canonical for u128 {
    open spec fn valid(v: u128) -> bool {
        true
    }

    proof fn round_trip(v: u128, tail: Seq<u8>) {
        lemma_le_spans();
        lemma_parse_le_round_trip(v as nat, 16, tail);
    }

    proof fn one_encoding(s: Seq<u8>) {
        lemma_le_spans();
        lemma_parse_le_one_encoding(16, s);
    }
}

/// A signed integer is encoded as the unsigned integer with the same bits.
impl Encode for i32 {
    open spec fn bytes_of(v: i32) -> Seq<u8> {
        u32::bytes_of(v as u32)
    }

    fn encode(&self, out: &mut Vec<u8>) {
        (*self as u32).encode(out);
    }
}

impl Decode for i32 {
    open spec fn parse(s: Seq<u8>) -> Parsed<i32> {
        u32::parse(s).map(|n: u32| n as i32)
    }

    fn decode(r: &mut Reader<'_>) -> (res: Result<Self, CodecError>) {
        let bits: u32 = u32::decode(r)?;
        Ok(bits as i32)
    }
}

impl Canonical for i32 {
    open spec fn valid(v: i32) -> bool {
        true
    }

    proof fn round_trip(v: i32, tail: Seq<u8>) {
        u32::round_trip(v as u32, tail);
        assert((v as u32) as i32 == v) by (bit_vector);
    }

    proof fn one_encoding(s: Seq<u8>) {
        u32::one_encoding(s);
        if u32::parse(s).value is Ok {
            let n: u32 = u32::parse(s).value->Ok_0;
            assert((n as i32) as u32 == n) by (bit_vector);
        }
    }
}

/// A signed integer is encoded as the unsigned integer with the same bits.
impl Encode for i64 {
    open spec fn bytes_of(v: i64) -> Seq<u8> {
        u64::bytes_of(v as u64)
    }

    fn encode(&self, out: &mut Vec<u8>) {
        (*self as u64).encode(out);
    }
}

impl Decode for i64 {
    open spec fn parse(s: Seq<u8>) -> Parsed<i64> {
        u64::parse(s).map(|n: u64| n as i64)
    }

    fn decode(r: &mut Reader<'_>) -> (res: Result<Self, CodecError>) {
        let bits: u64 = u64::decode(r)?;
        Ok(bits as i64)
    }
}

impl Canonical for i64 {
    open spec fn valid(v: i64) -> bool {
        true
    }

    proof fn round_trip(v: i64, tail: Seq<u8>) {
        u64::round_trip(v as u64, tail);
        assert((v as u64) as i64 == v) by (bit_vector);
    }

    proof fn one_encoding(s: Seq<u8>) {
        u64::one_encoding(s);
        if u64::parse(s).value is Ok {
            let n: u64 = u64::parse(s).value->Ok_0;
            assert((n as i64) as u64 == n) by (bit_vector);
        }
    }
}

// ---------------------------------------------------------------------------
// Booleans
// ---------------------------------------------------------------------------

impl Encode for bool {
    open spec fn bytes_of(v: bool) -> Seq<u8> {
        u8::bytes_of(if v {
            1
        } else {
            0
        })
    }

    fn encode(&self, out: &mut Vec<u8>) {
        let tag: u8 = if *self {
            1
        } else {
            0
        };
        tag.encode(out);
    }
}

/// Only `0` and `1` are booleans; refusing the rest keeps the encoding injective.
impl Decode for bool {
    open spec fn parse(s: Seq<u8>) -> Parsed<bool> {
        u8::parse(s).and_then(
            |tag: u8, rest: Seq<u8>|
                if tag == 0 {
                    Parsed { value: Ok(false), rest }
                } else if tag == 1 {
                    Parsed { value: Ok(true), rest }
                } else {
                    fault(CodecFault::UnknownDiscriminant { tag, what: "bool"@ }, rest)
                },
        )
    }

    fn decode(r: &mut Reader<'_>) -> (res: Result<Self, CodecError>) {
        let tag: u8 = u8::decode(r)?;
        match tag {
            0 => Ok(false),
            1 => Ok(true),
            _ => Err(CodecError::UnknownDiscriminant { tag, what: "bool" }),
        }
    }
}

impl Canonical for bool {
    open spec fn valid(v: bool) -> bool {
        true
    }

    proof fn round_trip(v: bool, tail: Seq<u8>) {
        u8::round_trip(
            if v {
                1
            } else {
                0
            },
            tail,
        );
    }

    proof fn one_encoding(s: Seq<u8>) {
        u8::one_encoding(s);
    }
}

// ---------------------------------------------------------------------------
// Byte strings and text
// ---------------------------------------------------------------------------

/// A length-prefixed byte string.
pub open spec fn blob(bytes: Seq<u8>) -> Seq<u8> {
    u32::bytes_of(bytes.len() as u32) + bytes
}

/// Reading a length-prefixed byte string.
pub open spec fn parse_blob(s: Seq<u8>) -> Parsed<Seq<u8>> {
    parse_len(s).and_then(|n: nat, rest: Seq<u8>| parse_take(n, rest))
}

pub proof fn lemma_len_round_trip(n: nat, tail: Seq<u8>)
    requires
        n <= MAX_FIELD_LEN,
    ensures
        parse_len(u32::bytes_of(n as u32) + tail) == (Parsed { value: Ok(n), rest: tail }),
{
    u32::round_trip(n as u32, tail);
}

pub proof fn lemma_len_one_encoding(s: Seq<u8>)
    ensures
        parse_len(s).value matches Ok(n) ==> n <= MAX_FIELD_LEN && s == u32::bytes_of(n as u32)
            + parse_len(s).rest,
{
    u32::one_encoding(s);
}

pub proof fn lemma_blob_round_trip(bytes: Seq<u8>, tail: Seq<u8>)
    requires
        bytes.len() <= MAX_FIELD_LEN,
    ensures
        parse_blob(blob(bytes) + tail) == (Parsed { value: Ok(bytes), rest: tail }),
{
    broadcast use lemma_concat_assoc;

    lemma_len_round_trip(bytes.len(), bytes + tail);
    lemma_split_concat(bytes, tail);
}

pub proof fn lemma_blob_one_encoding(s: Seq<u8>)
    ensures
        parse_blob(s).value matches Ok(bytes) ==> bytes.len() <= MAX_FIELD_LEN && s == blob(bytes)
            + parse_blob(s).rest,
{
    broadcast use lemma_concat_assoc;

    lemma_len_one_encoding(s);
    if parse_blob(s).value is Ok {
        let n = parse_len(s).value->Ok_0;
        let rest = parse_len(s).rest;
        assert(rest =~= rest.take(n as int) + rest.skip(n as int));
    }
}

/// Append a slice of bytes.
pub fn push_bytes(out: &mut Vec<u8>, bytes: &[u8])
    ensures
        final(out)@ == old(out)@ + bytes@,
{
    out.extend_from_slice(bytes);
    assert(out@ =~= old(out)@ + bytes@);
}

/// Encode a raw byte slice as a length-prefixed field.
///
/// Byte for byte what the encoding of a `Vec<u8>` is: see
/// [`law_blob_is_the_encoding_of_a_byte_list`].
pub fn encode_bytes(bytes: &[u8], out: &mut Vec<u8>)
    ensures
        final(out)@ == old(out)@ + blob(bytes@),
{
    broadcast use lemma_concat_assoc;

    let len: u32 = bytes.len() as u32;
    len.encode(out);
    push_bytes(out, bytes);
}

/// Decode a length-prefixed byte blob, bounds-checked against [`MAX_FIELD_LEN`].
pub fn decode_bytes(r: &mut Reader<'_>) -> (res: Result<Vec<u8>, CodecError>)
    ensures
        final(r).source() == old(r).source(),
        final(r).rest() == parse_blob(old(r).rest()).rest,
        match res {
            Ok(bytes) => parse_blob(old(r).rest()).value == Ok::<Seq<u8>, CodecFault>(bytes@),
            Err(e) => parse_blob(old(r).rest()).value == Err::<Seq<u8>, CodecFault>(e.deep_view()),
        },
{
    let len: usize = r.take_len()?;
    let bytes = r.take_field(len)?;
    Ok(vstd::slice::slice_to_vec(bytes))
}

impl Encode for str {
    open spec fn bytes_of(v: Seq<char>) -> Seq<u8> {
        blob(encode_utf8(v))
    }

    fn encode(&self, out: &mut Vec<u8>) {
        encode_bytes(self.as_bytes(), out);
    }
}

impl Encode for String {
    open spec fn bytes_of(v: Seq<char>) -> Seq<u8> {
        blob(encode_utf8(v))
    }

    fn encode(&self, out: &mut Vec<u8>) {
        encode_bytes(self.as_str().as_bytes(), out);
    }
}

impl Decode for String {
    open spec fn parse(s: Seq<u8>) -> Parsed<Seq<char>> {
        parse_blob(s).and_then(
            |bytes: Seq<u8>, rest: Seq<u8>|
                if valid_utf8(bytes) {
                    Parsed { value: Ok(decode_utf8(bytes)), rest }
                } else {
                    fault(
                        CodecFault::Invalid("non-utf8 string: "@ + text::utf8_complaint(bytes)),
                        rest,
                    )
                },
        )
    }

    fn decode(r: &mut Reader<'_>) -> (res: Result<Self, CodecError>) {
        let bytes = decode_bytes(r)?;
        match text::string_from_utf8(bytes) {
            Ok(s) => Ok(s),
            Err(complaint) => {
                let mut reason = String::from_str("non-utf8 string: ");
                reason.append(complaint.as_str());
                Err(CodecError::Invalid(reason))
            },
        }
    }
}

impl Canonical for String {
    open spec fn valid(v: Seq<char>) -> bool {
        encode_utf8(v).len() <= MAX_FIELD_LEN
    }

    proof fn round_trip(v: Seq<char>, tail: Seq<u8>) {
        lemma_blob_round_trip(encode_utf8(v), tail);
        vstd::utf8::encode_utf8_valid_utf8(v);
        vstd::utf8::encode_utf8_decode_utf8(v);
    }

    proof fn one_encoding(s: Seq<u8>) {
        lemma_blob_one_encoding(s);
        if Self::parse(s).value is Ok {
            vstd::utf8::decode_utf8_encode_utf8(parse_blob(s).value->Ok_0);
        }
    }
}

// ---------------------------------------------------------------------------
// Options
// ---------------------------------------------------------------------------

impl<T: Encode> Encode for Option<T> {
    open spec fn bytes_of(v: Option<T::V>) -> Seq<u8> {
        match v {
            None => u8::bytes_of(0),
            Some(x) => u8::bytes_of(1) + T::bytes_of(x),
        }
    }

    fn encode(&self, out: &mut Vec<u8>) {
        broadcast use lemma_concat_assoc;

        match self {
            None => {
                0u8.encode(out);
            },
            Some(v) => {
                1u8.encode(out);
                v.encode(out);
            },
        }
    }
}

impl<T: Decode> Decode for Option<T> {
    open spec fn parse(s: Seq<u8>) -> Parsed<Option<T::V>> {
        u8::parse(s).and_then(
            |tag: u8, rest: Seq<u8>|
                if tag == 0 {
                    Parsed { value: Ok(None), rest }
                } else if tag == 1 {
                    T::parse(rest).map(|x: T::V| Some(x))
                } else {
                    fault(CodecFault::UnknownDiscriminant { tag, what: "Option"@ }, rest)
                },
        )
    }

    fn decode(r: &mut Reader<'_>) -> (res: Result<Self, CodecError>) {
        let tag: u8 = u8::decode(r)?;
        match tag {
            0 => Ok(None),
            1 => {
                let v = T::decode(r)?;
                Ok(Some(v))
            },
            _ => Err(CodecError::UnknownDiscriminant { tag, what: "Option" }),
        }
    }
}

impl<T: Canonical> Canonical for Option<T> {
    open spec fn valid(v: Option<T::V>) -> bool {
        v matches Some(x) ==> T::valid(x)
    }

    proof fn round_trip(v: Option<T::V>, tail: Seq<u8>) {
        broadcast use lemma_concat_assoc;

        match v {
            None => {
                u8::round_trip(0, tail);
            },
            Some(x) => {
                u8::round_trip(1, T::bytes_of(x) + tail);
                T::round_trip(x, tail);
            },
        }
    }

    proof fn one_encoding(s: Seq<u8>) {
        broadcast use lemma_concat_assoc;

        u8::one_encoding(s);
        T::one_encoding(u8::parse(s).rest);
    }
}

// ---------------------------------------------------------------------------
// Lists
// ---------------------------------------------------------------------------

/// The encodings of the items of a list, one after another.
pub open spec fn items_bytes<T: Encode>(v: Seq<T::V>) -> Seq<u8>
    decreases v.len(),
{
    if v.len() == 0 {
        Seq::empty()
    } else {
        T::bytes_of(v[0]) + items_bytes::<T>(v.drop_first())
    }
}

/// Reading `n` items, one after another.
pub open spec fn parse_items<T: Decode>(n: nat, s: Seq<u8>) -> Parsed<Seq<T::V>>
    decreases n,
{
    if n == 0 {
        Parsed { value: Ok(Seq::empty()), rest: s }
    } else {
        let first = T::parse(s);
        match first.value {
            Err(e) => Parsed { value: Err(e), rest: first.rest },
            Ok(x) => parse_items::<T>((n - 1) as nat, first.rest).map(
                |xs: Seq<T::V>| seq![x] + xs,
            ),
        }
    }
}

/// Whether every item of a list is valid.
pub open spec fn all_valid<T: Canonical>(v: Seq<T::V>) -> bool {
    forall|i: int| 0 <= i < v.len() ==> T::valid(#[trigger] v[i])
}

pub proof fn lemma_items_snoc<T: Encode>(v: Seq<T::V>, x: T::V)
    ensures
        items_bytes::<T>(v.push(x)) == items_bytes::<T>(v) + T::bytes_of(x),
    decreases v.len(),
{
    broadcast use lemma_concat_assoc;

    if v.len() == 0 {
        assert(v.push(x).drop_first() =~= Seq::empty());
        assert(items_bytes::<T>(v.push(x).drop_first()) == Seq::<u8>::empty());
        assert(items_bytes::<T>(v.push(x)) =~= T::bytes_of(x));
        assert(items_bytes::<T>(v.push(x)) =~= items_bytes::<T>(v) + T::bytes_of(x));
    } else {
        assert(v.push(x).drop_first() =~= v.drop_first().push(x));
        lemma_items_snoc::<T>(v.drop_first(), x);
    }
}

pub proof fn lemma_items_round_trip<T: Canonical>(v: Seq<T::V>, tail: Seq<u8>)
    requires
        all_valid::<T>(v),
    ensures
        parse_items::<T>(v.len(), items_bytes::<T>(v) + tail) == (Parsed {
            value: Ok(v),
            rest: tail,
        }),
    decreases v.len(),
{
    broadcast use lemma_concat_assoc;

    if v.len() == 0 {
        assert(items_bytes::<T>(v) + tail =~= tail);
        assert(v =~= Seq::empty());
    } else {
        T::round_trip(v[0], items_bytes::<T>(v.drop_first()) + tail);
        assert forall|i: int| 0 <= i < v.drop_first().len() implies T::valid(
            #[trigger] v.drop_first()[i],
        ) by {
            assert(T::valid(v[i + 1]));
        }
        lemma_items_round_trip::<T>(v.drop_first(), tail);
        assert(v =~= seq![v[0]] + v.drop_first());
    }
}

pub proof fn lemma_items_one_encoding<T: Canonical>(n: nat, s: Seq<u8>)
    ensures
        parse_items::<T>(n, s).value matches Ok(v) ==> v.len() == n && all_valid::<T>(v) && s
            == items_bytes::<T>(v) + parse_items::<T>(n, s).rest,
    decreases n,
{
    broadcast use lemma_concat_assoc;

    if n == 0 {
        assert(s =~= Seq::<u8>::empty() + s);
    } else {
        T::one_encoding(s);
        let first = T::parse(s);
        if first.value is Ok {
            let x = first.value->Ok_0;
            lemma_items_one_encoding::<T>((n - 1) as nat, first.rest);
            let more = parse_items::<T>((n - 1) as nat, first.rest);
            if more.value is Ok {
                let xs = more.value->Ok_0;
                let v = seq![x] + xs;
                assert(v.drop_first() =~= xs);
                assert forall|i: int| 0 <= i < v.len() implies T::valid(#[trigger] v[i]) by {
                    if i > 0 {
                        assert(T::valid(xs[i - 1]));
                    }
                }
            }
        }
    }
}

impl<T: Encode> Encode for Vec<T> {
    open spec fn bytes_of(v: Seq<T::V>) -> Seq<u8> {
        u32::bytes_of(v.len() as u32) + items_bytes::<T>(v)
    }

    fn encode(&self, out: &mut Vec<u8>) {
        broadcast use lemma_concat_assoc;

        let len: u32 = self.len() as u32;
        len.encode(out);
        let mut i: usize = 0;
        let ghost start = out@;
        let ghost view = self.deep_view();
        assert(start =~= start + items_bytes::<T>(view.take(0)));
        while i < self.len()
            invariant
                i <= self@.len(),
                view == self.deep_view(),
                out@ == start + items_bytes::<T>(view.take(i as int)),
            decreases self@.len() - i,
        {
            self[i].encode(out);
            proof {
                lemma_items_snoc::<T>(view.take(i as int), view[i as int]);
                assert(view.take(i as int + 1) =~= view.take(i as int).push(view[i as int]));
            }
            i += 1;
        }
        assert(view.take(view.len() as int) =~= view);
    }
}

impl<T: Decode> Decode for Vec<T> {
    open spec fn parse(s: Seq<u8>) -> Parsed<Seq<T::V>> {
        parse_len(s).and_then(|n: nat, rest: Seq<u8>| parse_items::<T>(n, rest))
    }

    fn decode(r: &mut Reader<'_>) -> (res: Result<Self, CodecError>) {
        let len: usize = r.take_len()?;
        // Each element still has to be present in the buffer, so nothing is
        // allocated for a count that was merely declared.
        let mut out: Vec<T> = Vec::new();
        let ghost start = r.rest();
        let mut i: usize = 0;
        assert(out.deep_view() =~= Seq::empty());
        proof {
            let all = parse_items::<T>(len as nat, start);
            if all.value is Ok {
                assert(out.deep_view() + all.value->Ok_0 =~= all.value->Ok_0);
            }
        }
        while i < len
            invariant
                i <= len,
                r.source() == old(r).source(),
                Self::parse(old(r).rest()) == parse_items::<T>(len as nat, start),
                parse_items::<T>(len as nat, start) == parse_items::<T>(
                    (len - i) as nat,
                    r.rest(),
                ).map(|xs: Seq<T::V>| out.deep_view() + xs),
            decreases len - i,
        {
            let ghost before = out.deep_view();
            let ghost rest = r.rest();
            let item = T::decode(r)?;
            out.push(item);
            proof {
                assert(out.deep_view() =~= before.push(item.deep_view()));
                let more = parse_items::<T>((len - i - 1) as nat, r.rest());
                if more.value is Ok {
                    let xs = more.value->Ok_0;
                    assert(before + (seq![item.deep_view()] + xs) =~= out.deep_view() + xs);
                }
            }
            i += 1;
        }
        assert(out.deep_view() + Seq::<T::V>::empty() =~= out.deep_view());
        Ok(out)
    }
}

impl<T: Canonical> Canonical for Vec<T> {
    open spec fn valid(v: Seq<T::V>) -> bool {
        v.len() <= MAX_FIELD_LEN && all_valid::<T>(v)
    }

    proof fn round_trip(v: Seq<T::V>, tail: Seq<u8>) {
        broadcast use lemma_concat_assoc;

        lemma_len_round_trip(v.len(), items_bytes::<T>(v) + tail);
        lemma_items_round_trip::<T>(v, tail);
    }

    proof fn one_encoding(s: Seq<u8>) {
        broadcast use lemma_concat_assoc;

        lemma_len_one_encoding(s);
        if parse_len(s).value is Ok {
            lemma_items_one_encoding::<T>(parse_len(s).value->Ok_0, parse_len(s).rest);
        }
    }
}

/// A length-prefixed byte field and a list of bytes have the same encoding.
pub proof fn law_blob_is_the_encoding_of_a_byte_list(bytes: Seq<u8>)
    ensures
        blob(bytes) == Vec::<u8>::bytes_of(bytes),
{
    lemma_items_of_bytes(bytes);
}

proof fn lemma_items_of_bytes(bytes: Seq<u8>)
    ensures
        items_bytes::<u8>(bytes) == bytes,
    decreases bytes.len(),
{
    if bytes.len() == 0 {
        assert(bytes =~= Seq::empty());
    } else {
        lemma_items_of_bytes(bytes.drop_first());
        assert(le_bytes(bytes[0] as nat / 256, 0) =~= Seq::empty());
        assert(u8::bytes_of(bytes[0]) =~= seq![bytes[0]]);
        assert(bytes =~= seq![bytes[0]] + bytes.drop_first());
    }
}

// ---------------------------------------------------------------------------
// Pairs
// ---------------------------------------------------------------------------

/// Two values, one after the other. Records are encoded as nested pairs of
/// their fields.
impl<A: Encode, B: Encode> Encode for (A, B) {
    open spec fn bytes_of(v: (A::V, B::V)) -> Seq<u8> {
        A::bytes_of(v.0) + B::bytes_of(v.1)
    }

    fn encode(&self, out: &mut Vec<u8>) {
        broadcast use lemma_concat_assoc;

        self.0.encode(out);
        self.1.encode(out);
    }
}

impl<A: Decode, B: Decode> Decode for (A, B) {
    open spec fn parse(s: Seq<u8>) -> Parsed<(A::V, B::V)> {
        A::parse(s).and_then(|x: A::V, rest: Seq<u8>| B::parse(rest).map(|y: B::V| (x, y)))
    }

    fn decode(r: &mut Reader<'_>) -> (res: Result<Self, CodecError>) {
        let a = A::decode(r)?;
        let b = B::decode(r)?;
        Ok((a, b))
    }
}

impl<A: Canonical, B: Canonical> Canonical for (A, B) {
    open spec fn valid(v: (A::V, B::V)) -> bool {
        A::valid(v.0) && B::valid(v.1)
    }

    proof fn round_trip(v: (A::V, B::V), tail: Seq<u8>) {
        broadcast use lemma_concat_assoc;

        A::round_trip(v.0, B::bytes_of(v.1) + tail);
        B::round_trip(v.1, tail);
    }

    proof fn one_encoding(s: Seq<u8>) {
        broadcast use lemma_concat_assoc;

        A::one_encoding(s);
        B::one_encoding(A::parse(s).rest);
    }
}

// ---------------------------------------------------------------------------
// Variants: a tag, and what comes with it
// ---------------------------------------------------------------------------

/// A tag followed by a value reads back as the tag and the value.
pub proof fn lemma_tagged_round_trip<T: Canonical>(tag: u8, v: T::V, tail: Seq<u8>)
    requires
        T::valid(v),
    ensures
        ({
            let s = u8::bytes_of(tag) + T::bytes_of(v) + tail;
            &&& u8::parse(s).value == Ok::<u8, CodecFault>(tag)
            &&& T::parse(u8::parse(s).rest).value == Ok::<T::V, CodecFault>(v)
            &&& T::parse(u8::parse(s).rest).rest == tail
        }),
{
    lemma_concat_assoc(u8::bytes_of(tag), T::bytes_of(v), tail);
    u8::round_trip(tag, T::bytes_of(v) + tail);
    T::round_trip(v, tail);
}

/// What reads as a tag and a value is their encoding, and the value is valid.
pub proof fn lemma_tagged_one_encoding<T: Canonical>(tag: u8, s: Seq<u8>)
    requires
        u8::parse(s).value == Ok::<u8, CodecFault>(tag),
        T::parse(u8::parse(s).rest).value is Ok,
    ensures
        ({
            let p = T::parse(u8::parse(s).rest);
            &&& T::valid(p.value->Ok_0)
            &&& s == u8::bytes_of(tag) + T::bytes_of(p.value->Ok_0) + p.rest
        }),
{
    u8::one_encoding(s);
    let rest = u8::parse(s).rest;
    T::one_encoding(rest);
    let p = T::parse(rest);
    lemma_concat_assoc(u8::bytes_of(tag), T::bytes_of(p.value->Ok_0), p.rest);
}

/// Encode a tag and a value.
pub fn encode_tagged<A: Encode>(tag: u8, a: &A, out: &mut Vec<u8>)
    ensures
        final(out)@ == old(out)@ + (u8::bytes_of(tag) + A::bytes_of(a.deep_view())),
{
    broadcast use lemma_concat_assoc;

    tag.encode(out);
    a.encode(out);
}

/// Encode a tag and two values.
pub fn encode_tagged2<A: Encode, B: Encode>(tag: u8, a: &A, b: &B, out: &mut Vec<u8>)
    ensures
        final(out)@ == old(out)@ + (u8::bytes_of(tag) + <(A, B)>::bytes_of(
            (a.deep_view(), b.deep_view()),
        )),
{
    broadcast use lemma_concat_assoc;

    tag.encode(out);
    a.encode(out);
    b.encode(out);
}

/// Encode a tag and three values.
pub fn encode_tagged3<A: Encode, B: Encode, C: Encode>(
    tag: u8,
    a: &A,
    b: &B,
    c: &C,
    out: &mut Vec<u8>,
)
    ensures
        final(out)@ == old(out)@ + (u8::bytes_of(tag) + <(A, (B, C))>::bytes_of(
            (a.deep_view(), (b.deep_view(), c.deep_view())),
        )),
{
    broadcast use lemma_concat_assoc;

    tag.encode(out);
    a.encode(out);
    b.encode(out);
    c.encode(out);
}

/// Encode a tag and four values.
pub fn encode_tagged4<A: Encode, B: Encode, C: Encode, D: Encode>(
    tag: u8,
    a: &A,
    b: &B,
    c: &C,
    d: &D,
    out: &mut Vec<u8>,
)
    ensures
        final(out)@ == old(out)@ + (u8::bytes_of(tag) + <(A, (B, (C, D)))>::bytes_of(
            (a.deep_view(), (b.deep_view(), (c.deep_view(), d.deep_view()))),
        )),
{
    broadcast use lemma_concat_assoc;

    tag.encode(out);
    a.encode(out);
    b.encode(out);
    c.encode(out);
    d.encode(out);
}

/// Encode a tag and five values.
pub fn encode_tagged5<A: Encode, B: Encode, C: Encode, D: Encode, E: Encode>(
    tag: u8,
    a: &A,
    b: &B,
    c: &C,
    d: &D,
    e: &E,
    out: &mut Vec<u8>,
)
    ensures
        final(out)@ == old(out)@ + (u8::bytes_of(tag) + <(A, (B, (C, (D, E))))>::bytes_of(
            (a.deep_view(), (b.deep_view(), (c.deep_view(), (d.deep_view(), e.deep_view())))),
        )),
{
    broadcast use lemma_concat_assoc;

    tag.encode(out);
    a.encode(out);
    b.encode(out);
    c.encode(out);
    d.encode(out);
    e.encode(out);
}

/// Encode seven values.
pub fn encode7<A: Encode, B: Encode, C: Encode, D: Encode, E: Encode, F: Encode, G: Encode>(
    a: &A,
    b: &B,
    c: &C,
    d: &D,
    e: &E,
    f: &F,
    g: &G,
    out: &mut Vec<u8>,
)
    ensures
        final(out)@ == old(out)@ + <(A, (B, (C, (D, (E, (F, G))))))>::bytes_of(
            (
                a.deep_view(),
                (
                    b.deep_view(),
                    (
                        c.deep_view(),
                        (d.deep_view(), (e.deep_view(), (f.deep_view(), g.deep_view()))),
                    ),
                ),
            ),
        ),
{
    broadcast use lemma_concat_assoc;

    a.encode(out);
    b.encode(out);
    c.encode(out);
    d.encode(out);
    e.encode(out);
    f.encode(out);
    g.encode(out);
}

} // verus!
