//! How numbers, names and records are written, rule by rule.
//!
//! The laws here fix the forms of [`crate::primitives`] in terms of characters and bytes:
//! which characters a name may have, which digits a number is written with, and which
//! bytes a value is encoded as.

use crate::alias::valid_username;
use crate::pay::reference::{reference_in, PaymentReference};
use crate::primitives::amount::{
    amount_text, decimal_units, ratio_wraps, AFRI_DECIMALS, SENTE_PER_AFRI,
};
use crate::primitives::codec::{
    outcome, parse_exact, parse_len, parse_take, CodecError, CodecFault, Decode, Encode, Parsed,
};
use crate::primitives::country::valid_country;
use crate::primitives::denom::{denom_complaint, is_country, sovereign_text, valid_denom};
use crate::primitives::ids::{chain_id_complaint, valid_chain_id};
use crate::primitives::text;
use crate::primitives::wire;
use crate::primitives::UNBONDING_MS;
use vstd::arithmetic::power::pow;
use vstd::prelude::*;
use vstd::utf8::encode_utf8;

verus! {

// ---------------------------------------------------------------------------
// Numbers in text
// ---------------------------------------------------------------------------

proof fn lemma_value_is_the_fold(s: Seq<char>)
    requires
        text::all_digits(s),
    ensures
        text::decimal_value(s) == s.fold_left(0int, |v: int, c: char| 10 * v + (c as int - 48)),
    decreases s.len(),
{
    if s.len() > 0 {
        let rest = s.drop_last();
        assert forall|i: int| 0 <= i < rest.len() implies text::is_digit(#[trigger] rest[i]) by {
            assert(rest[i] == s[i]);
        }
        lemma_value_is_the_fold(rest);
        assert(text::is_digit(s[s.len() - 1]));
    }
}

proof fn lemma_decimal_begins_without_a_zero(n: nat)
    ensures
        n >= 10 ==> text::decimal(n)[0] != '0',
        n > 0 ==> text::decimal(n)[0] != '0',
        n < 10 ==> text::decimal(n).len() == 1,
        text::decimal(n).len() > 0,
    decreases n,
{
    if n >= 10 {
        lemma_decimal_begins_without_a_zero(n / 10);
        assert(text::decimal(n)[0] == text::decimal(n / 10)[0]);
    }
}

/// A number in decimal: digits whose value is the number, and no zero in front of them
/// but for zero itself.
pub proof fn law_how_numbers_are_written(n: nat)
    ensures
        ({
            let s = text::decimal(n);
            &&& s.len() > 0
            &&& forall|i: int| 0 <= i < s.len() ==> '0' <= #[trigger] s[i] <= '9'
            &&& s.fold_left(0int, |v: int, c: char| 10 * v + (c as int - 48)) == n
            &&& n > 0 ==> s[0] != '0'
            &&& n == 0 ==> s.len() == 1
        }),
{
    text::lemma_decimal_reads_back(n);
    lemma_value_is_the_fold(text::decimal(n));
    lemma_decimal_begins_without_a_zero(n);
    let s = text::decimal(n);
    assert forall|i: int| 0 <= i < s.len() implies '0' <= #[trigger] s[i] <= '9' by {
        assert(text::is_digit(s[i]));
    }
}

/// The value of digits is what they say, the last one counting units, and a text is of
/// digits alone when each of its characters is one.
pub proof fn law_what_digits_say(s: Seq<char>)
    ensures
        text::all_digits(s) <==> forall|i: int| 0 <= i < s.len() ==> '0' <= #[trigger] s[i] <= '9',
        text::all_digits(s) ==> text::decimal_value(s) == s.fold_left(
            0int,
            |v: int, c: char| 10 * v + (c as int - 48),
        ),
{
    if text::all_digits(s) {
        lemma_value_is_the_fold(s);
        assert forall|i: int| 0 <= i < s.len() implies '0' <= #[trigger] s[i] <= '9' by {
            assert(text::is_digit(s[i]));
        }
    }
}

/// Bytes in hexadecimal: two characters for each, the high half first, in lowercase.
pub proof fn law_how_bytes_are_written_in_hexadecimal(bytes: Seq<u8>, i: int)
    requires
        0 <= i < bytes.len(),
    ensures
        text::hex(bytes).len() == 2 * bytes.len(),
        text::hex(bytes)[2 * i] as int == if bytes[i] / 16 < 10 {
            48 + bytes[i] / 16
        } else {
            87 + bytes[i] / 16
        },
        text::hex(bytes)[2 * i + 1] as int == if bytes[i] % 16 < 10 {
            48 + bytes[i] % 16
        } else {
            87 + bytes[i] % 16
        },
    decreases bytes.len(),
{
    let rest = bytes.drop_last();
    lemma_hex_len(rest);
    lemma_hex_len(bytes);
    if i < rest.len() {
        law_how_bytes_are_written_in_hexadecimal(rest, i);
        assert(rest[i] == bytes[i]);
        assert(text::hex(bytes)[2 * i] == text::hex(rest)[2 * i]);
        assert(text::hex(bytes)[2 * i + 1] == text::hex(rest)[2 * i + 1]);
    } else {
        lemma_hex_digit((bytes[i] / 16) as nat);
        lemma_hex_digit((bytes[i] % 16) as nat);
    }
}

proof fn lemma_hex_len(bytes: Seq<u8>)
    ensures
        text::hex(bytes).len() == 2 * bytes.len(),
    decreases bytes.len(),
{
    if bytes.len() > 0 {
        lemma_hex_len(bytes.drop_last());
    }
}

proof fn lemma_hex_digit(d: nat)
    requires
        d < 16,
    ensures
        text::hex_digit(d) as int == if d < 10 {
            48 + d
        } else {
            87 + d
        },
{
}

/// A number in hexadecimal: lowercase digits whose value is the number, and no zero in
/// front of them but for zero itself.
pub proof fn law_how_numbers_are_written_in_hexadecimal(n: nat)
    ensures
        ({
            let s = text::hex_number(n);
            &&& s.len() > 0
            &&& forall|i: int|
                0 <= i < s.len() ==> '0' <= #[trigger] s[i] <= '9' || 'a' <= s[i] <= 'f'
            &&& s.fold_left(
                0int,
                |v: int, c: char|
                    16 * v + if c <= '9' {
                        c as int - 48
                    } else {
                        c as int - 87
                    },
            ) == n
            &&& n > 0 ==> s[0] != '0'
            &&& n == 0 ==> s.len() == 1
        }),
    decreases n,
{
    let s = text::hex_number(n);
    if n < 16 {
        lemma_hex_digit(n);
        assert(s.drop_last() =~= Seq::<char>::empty());
        let f = |v: int, c: char|
            16 * v + if c <= '9' {
                c as int - 48
            } else {
                c as int - 87
            };
        assert(s.drop_last().fold_left(0int, f) == 0);
        assert(s.fold_left(0int, f) == f(0, s.last()));
    } else {
        law_how_numbers_are_written_in_hexadecimal(n / 16);
        lemma_hex_digit(n % 16);
        assert(s.drop_last() =~= text::hex_number(n / 16));
        assert(s[0] == text::hex_number(n / 16)[0]);
    }
}

/// A character's position is the first place that holds it, or the end where none does.
pub proof fn law_a_position_is_the_first(s: Seq<char>, c: char)
    ensures
        text::position(s, c) < s.len() <==> s.contains(c),
        text::position(s, c) <= s.len(),
        s.contains(c) ==> s[text::position(s, c) as int] == c,
        forall|i: int| 0 <= i < text::position(s, c) ==> #[trigger] s[i] != c,
{
    text::lemma_position(s, c);
}

/// A reference is plain digits, at least one, of a value that fits in sixty-four bits.
pub proof fn law_what_a_reference_is(s: Seq<char>)
    ensures
        ({
            let plain = s.len() > 0 && forall|i: int|
                0 <= i < s.len() ==> '0' <= #[trigger] s[i] <= '9';
            let value = s.fold_left(0int, |v: int, c: char| 10 * v + (c as int - 48));
            reference_in(s) == if plain && value <= u64::MAX {
                Some(PaymentReference(value as u64))
            } else {
                None
            }
        }),
{
    law_what_digits_say(s);
}

// ---------------------------------------------------------------------------
// Amounts
// ---------------------------------------------------------------------------

/// One AFRI is a thousand million sente, nine decimal places, and stake is on its way out
/// for twenty-one days.
pub proof fn law_the_units_of_the_chain()
    ensures
        SENTE_PER_AFRI == 1_000_000_000,
        AFRI_DECIMALS == 9,
        UNBONDING_MS == 1_814_400_000,
{
}

proof fn lemma_pow10_is_pow(k: nat)
    ensures
        text::pow10(k) == pow(10, k),
    decreases k,
{
    reveal(pow);
    if k > 0 {
        lemma_pow10_is_pow((k - 1) as nat);
    }
}

/// What an amount in decimal denotes: whole AFRI alone, or whole AFRI, a point and one to
/// nine places, all plain digits. Anything else denotes nothing.
pub proof fn law_what_an_amount_denotes(whole: Seq<char>, places: Seq<char>)
    requires
        !whole.contains('.'),
    ensures
        ({
            let plain = whole.len() > 0 && forall|i: int|
                0 <= i < whole.len() ==> '0' <= #[trigger] whole[i] <= '9';
            let fine = 1 <= places.len() <= 9 && forall|i: int|
                0 <= i < places.len() ==> '0' <= #[trigger] places[i] <= '9';
            let afri = whole.fold_left(0int, |v: int, c: char| 10 * v + (c as int - 48));
            let part = places.fold_left(0int, |v: int, c: char| 10 * v + (c as int - 48));
            &&& plain ==> (decimal_units(whole) matches Some(n) && n == afri * 1_000_000_000)
            &&& !plain ==> decimal_units(whole) is None
            &&& plain && fine ==> (decimal_units(whole + "."@ + places) matches Some(n) && n == afri
                * 1_000_000_000 + part * pow(10, (9 - places.len()) as nat))
            &&& !(plain && fine) ==> decimal_units(whole + "."@ + places) is None
        }),
{
    reveal_strlit(".");
    let n = whole.len() as int;
    assert forall|j: int| 0 <= j < n implies whole[j] != '.' by {
        assert(whole.contains(whole[j]));
    }
    text::lemma_position_is(whole, '.', n);
    assert(whole.take(n) =~= whole);
    law_what_digits_say(whole);
    law_what_digits_say(places);
    let full = whole + "."@ + places;
    assert forall|j: int| 0 <= j < n implies full[j] != '.' by {
        assert(full[j] == whole[j]);
    }
    assert(full[n] == '.');
    text::lemma_position_is(full, '.', n);
    assert(full.take(n) =~= whole);
    assert(full.skip(n + 1) =~= places);
    if places.len() <= 9 {
        lemma_pow10_is_pow((9 - places.len()) as nat);
    }
}

proof fn lemma_trimmed_ends_without_a_zero(s: Seq<char>)
    ensures
        text::trim_zeros(s).len() > 0 ==> text::trim_zeros(s).last() != '0',
        text::trim_zeros(s).len() <= s.len(),
    decreases s.len(),
{
    if s.len() > 0 && s.last() == '0' {
        lemma_trimmed_ends_without_a_zero(s.drop_last());
    }
}

/// How an amount is written: its whole AFRI in decimal, a point, and as many of the nine
/// places as it takes, without zeros at the end but always with one place.
pub proof fn law_how_an_amount_is_written(units: nat)
    ensures
        exists|places: Seq<char>|
            {
                &&& amount_text(units) == #[trigger] (text::decimal(units / 1_000_000_000) + "."@
                    + places)
                &&& 1 <= places.len() <= 9
                &&& places.last() != '0' || places.len() == 1
            },
{
    let raw = text::trim_zeros(text::padded(units % 1_000_000_000, 9));
    text::lemma_padded(units % 1_000_000_000, 9);
    lemma_trimmed_ends_without_a_zero(text::padded(units % 1_000_000_000, 9));
    reveal_strlit("0");
    let places = if raw.len() == 0 {
        "0"@
    } else {
        raw
    };
    assert(amount_text(units) == text::decimal(units / 1_000_000_000) + "."@ + places);
}

/// A ratio of an amount is refused only where a step of the calculation does not fit:
/// the share of the whole parts, the share of the remainder, or the two together.
pub proof fn law_when_a_ratio_is_refused(amount: nat, numer: nat, denom: nat)
    requires
        denom > 0,
    ensures
        ratio_wraps(amount, numer, denom) <==> {
            ||| (amount / denom) * numer > 0xffff_ffff_ffff_ffff_ffff_ffff_ffff_ffff
            ||| (amount % denom) * numer > 0xffff_ffff_ffff_ffff_ffff_ffff_ffff_ffff
            ||| (amount * numer) / denom > 0xffff_ffff_ffff_ffff_ffff_ffff_ffff_ffff
        },
{
    let (q, r) = (amount / denom, amount % denom);
    vstd::arithmetic::div_mod::lemma_fundamental_div_mod(amount as int, denom as int);
    assert(amount * numer == denom * (q * numer) + r * numer) by (nonlinear_arith)
        requires
            amount == denom * q + r,
    ;
    vstd::arithmetic::div_mod::lemma_div_multiples_vanish_fancy(
        (q * numer) as int,
        0,
        denom as int,
    );
    vstd::arithmetic::div_mod::lemma_hoist_over_denominator(
        (r * numer) as int,
        (q * numer) as int,
        denom,
    );
    assert(denom * (q * numer) == (q * numer) * denom) by (nonlinear_arith);
}

// ---------------------------------------------------------------------------
// Names
// ---------------------------------------------------------------------------

/// What a denomination is: three to 128 bytes, a lowercase letter first, then lowercase
/// letters, digits, slashes, dashes and dots, without an empty segment or a slash at the
/// end. The first of these that fails, in that order, is the reason.
pub proof fn law_what_a_denomination_is(s: Seq<char>)
    ensures
        ({
            let bytes = encode_utf8(s).len();
            let spelt = forall|i: int|
                0 <= i < s.len() ==> 'a' <= #[trigger] s[i] <= 'z' || '0' <= s[i] <= '9' || s[i]
                    == '/' || s[i] == '-' || s[i] == '.';
            let empty_segment = exists|i: int|
                0 < i < s.len() && #[trigger] s[i] == '/' && s[i - 1] == '/';
            denom_complaint(s) == if bytes < 3 {
                Some("shorter than 3 bytes"@)
            } else if bytes > 128 {
                Some("longer than 128 bytes"@)
            } else if s.len() == 0 || !('a' <= s[0] <= 'z') {
                Some("must start with a lowercase ASCII letter"@)
            } else if !spelt {
                Some("may only contain [a-z0-9/.-]"@)
            } else if s[s.len() - 1] == '/' || empty_segment {
                Some("malformed path segments"@)
            } else {
                None
            }
        }),
        valid_denom(s) <==> denom_complaint(s) is None,
{
    let spelt = forall|i: int|
        0 <= i < s.len() ==> 'a' <= #[trigger] s[i] <= 'z' || '0' <= s[i] <= '9' || s[i] == '/'
            || s[i] == '-' || s[i] == '.';
    let proper = forall|i: int|
        0 <= i < s.len() ==> crate::primitives::denom::denom_char(#[trigger] s[i]);
    assert(spelt <==> proper) by {
        if proper {
            assert forall|i: int| 0 <= i < s.len() implies 'a' <= #[trigger] s[i] <= 'z' || '0'
                <= s[i] <= '9' || s[i] == '/' || s[i] == '-' || s[i] == '.' by {
                assert(crate::primitives::denom::denom_char(s[i]));
            }
        }
    }
}

/// A sovereign denomination is its country, two lowercase letters, and its unit, under
/// the prefix that is kept for such denominations.
pub proof fn law_how_a_sovereign_denomination_is_named(country: Seq<char>, unit: Seq<char>)
    ensures
        sovereign_text(country, unit) == "sov/"@ + country + "/"@ + unit,
        is_country(country) <==> country.len() == 2 && 'a' <= country[0] <= 'z' && 'a'
            <= country[1] <= 'z',
{
}

/// What a network's name is: one to fifty bytes of lowercase letters, digits and dashes.
/// The first of these that fails, in that order, is the reason.
pub proof fn law_what_a_chain_id_is(s: Seq<char>)
    ensures
        ({
            let spelt = forall|i: int|
                0 <= i < s.len() ==> 'a' <= #[trigger] s[i] <= 'z' || '0' <= s[i] <= '9' || s[i]
                    == '-';
            chain_id_complaint(s) == if s.len() == 0 {
                Some("must not be empty"@)
            } else if encode_utf8(s).len() > 50 {
                Some("longer than 50 bytes"@)
            } else if !spelt {
                Some("may only contain [a-z0-9-]"@)
            } else {
                None
            }
        }),
        valid_chain_id(s) <==> chain_id_complaint(s) is None,
{
    let spelt = forall|i: int|
        0 <= i < s.len() ==> 'a' <= #[trigger] s[i] <= 'z' || '0' <= s[i] <= '9' || s[i] == '-';
    let proper = forall|i: int|
        0 <= i < s.len() ==> crate::primitives::ids::chain_id_char(#[trigger] s[i]);
    assert(spelt <==> proper) by {
        if proper {
            assert forall|i: int| 0 <= i < s.len() implies 'a' <= #[trigger] s[i] <= 'z' || '0'
                <= s[i] <= '9' || s[i] == '-' by {
                assert(crate::primitives::ids::chain_id_char(s[i]));
            }
        }
    }
}

/// What a username is: three to thirty-two lowercase letters, digits and dashes, and not
/// the name of the chain's own coin.
pub proof fn law_what_a_username_is(s: Seq<char>)
    ensures
        valid_username(s) <==> {
            &&& 3 <= s.len() <= 32
            &&& forall|i: int|
                0 <= i < s.len() ==> 'a' <= #[trigger] s[i] <= 'z' || '0' <= s[i] <= '9' || s[i]
                    == '-'
            &&& s != "afri"@
        },
{
    let spelt = forall|i: int|
        0 <= i < s.len() ==> 'a' <= #[trigger] s[i] <= 'z' || '0' <= s[i] <= '9' || s[i] == '-';
    let proper = forall|i: int| 0 <= i < s.len() ==> crate::alias::name_char(#[trigger] s[i]);
    assert(spelt <==> proper) by {
        if proper {
            assert forall|i: int| 0 <= i < s.len() implies 'a' <= #[trigger] s[i] <= 'z' || '0'
                <= s[i] <= '9' || s[i] == '-' by {
                assert(crate::alias::name_char(s[i]));
            }
        }
    }
}

/// A country's code is two lowercase ASCII letters.
pub proof fn law_what_a_country_is(code: Seq<u8>)
    ensures
        valid_country(code) <==> code.len() == 2 && 97 <= code[0] <= 122 && 97 <= code[1] <= 122,
{
}

// ---------------------------------------------------------------------------
// Bytes
// ---------------------------------------------------------------------------

proof fn lemma_le_bytes(n: nat, width: nat, i: int)
    requires
        0 <= i < width,
    ensures
        wire::le_bytes(n, width).len() == width,
        wire::le_bytes(n, width)[i] == (n as int / pow(256, i as nat)) % 256,
    decreases width,
{
    lemma_le_len(n, width);
    let rest = wire::le_bytes(n / 256, (width - 1) as nat);
    reveal(pow);
    if i > 0 {
        lemma_le_bytes(n / 256, (width - 1) as nat, i - 1);
        assert(wire::le_bytes(n, width)[i] == rest[i - 1]);
        vstd::arithmetic::power::lemma_pow_positive(256, (i - 1) as nat);
        vstd::arithmetic::div_mod::lemma_div_denominator(
            n as int,
            256,
            pow(256, (i - 1) as nat),
        );
        assert(pow(256, i as nat) == 256 * pow(256, (i - 1) as nat));
    } else {
        assert(pow(256, 0) == 1);
    }
}

proof fn lemma_le_len(n: nat, width: nat)
    ensures
        wire::le_bytes(n, width).len() == width,
    decreases width,
{
    if width > 0 {
        lemma_le_len(n / 256, (width - 1) as nat);
    }
}

/// A number's bytes come with the lowest first, and there are as many of them as its type
/// is wide.
pub proof fn law_numbers_are_little_endian(a: u8, b: u16, c: u32, d: u64, e: u128, i: int)
    ensures
        u8::bytes_of(a) == seq![a],
        u16::bytes_of(b).len() == 2,
        0 <= i < 2 ==> u16::bytes_of(b)[i] == (b as int / pow(256, i as nat)) % 256,
        u32::bytes_of(c).len() == 4,
        0 <= i < 4 ==> u32::bytes_of(c)[i] == (c as int / pow(256, i as nat)) % 256,
        u64::bytes_of(d).len() == 8,
        0 <= i < 8 ==> u64::bytes_of(d)[i] == (d as int / pow(256, i as nat)) % 256,
        u128::bytes_of(e).len() == 16,
        0 <= i < 16 ==> u128::bytes_of(e)[i] == (e as int / pow(256, i as nat)) % 256,
{
    lemma_le_bytes(a as nat, 1, 0);
    reveal(pow);
    assert(pow(256, 0) == 1);
    assert(u8::bytes_of(a) =~= seq![a]);
    lemma_le_len(b as nat, 2);
    lemma_le_len(c as nat, 4);
    lemma_le_len(d as nat, 8);
    lemma_le_len(e as nat, 16);
    if 0 <= i < 2 {
        lemma_le_bytes(b as nat, 2, i);
    }
    if 0 <= i < 4 {
        lemma_le_bytes(c as nat, 4, i);
    }
    if 0 <= i < 8 {
        lemma_le_bytes(d as nat, 8, i);
    }
    if 0 <= i < 16 {
        lemma_le_bytes(e as nat, 16, i);
    }
}

/// The bytes of a truth value, of a text and of a list of bytes: one byte of zero or one;
/// and the length in four bytes before the bytes themselves.
pub proof fn law_how_texts_are_framed(b: bool, s: Seq<char>, bytes: Seq<u8>)
    ensures
        bool::bytes_of(b) == seq![if b {
            1u8
        } else {
            0u8
        }],
        String::bytes_of(s) == u32::bytes_of(encode_utf8(s).len() as u32) + encode_utf8(s),
        str::bytes_of(s) == u32::bytes_of(encode_utf8(s).len() as u32) + encode_utf8(s),
        wire::blob(bytes) == u32::bytes_of(bytes.len() as u32) + bytes,
{
    law_numbers_are_little_endian(
        if b {
            1
        } else {
            0
        },
        0,
        0,
        0,
        0,
        0,
    );
}

/// The bytes of what may be absent, of a pair and of a list: one byte of zero, or one of
/// one before the value; the one after the other; and the count in four bytes before the
/// items in their order.
pub proof fn law_how_values_are_joined<A: Encode, B: Encode>(
    a: A::V,
    b: B::V,
    list: Seq<A::V>,
)
    ensures
        Option::<A>::bytes_of(None) == seq![0u8],
        Option::<A>::bytes_of(Some(a)) == seq![1u8] + A::bytes_of(a),
        <(A, B)>::bytes_of((a, b)) == A::bytes_of(a) + B::bytes_of(b),
        Vec::<A>::bytes_of(Seq::empty()) == u32::bytes_of(0),
        Vec::<A>::bytes_of(list) == u32::bytes_of(list.len() as u32) + list.fold_left(
            Seq::<u8>::empty(),
            |out: Seq<u8>, x: A::V| out + A::bytes_of(x),
        ),
{
    law_numbers_are_little_endian(0, 0, 0, 0, 0, 0);
    law_numbers_are_little_endian(1, 0, 0, 0, 0, 0);
    lemma_items_are_in_order::<A>(list);
    assert(wire::items_bytes::<A>(Seq::empty()) =~= Seq::<u8>::empty());
    assert(u32::bytes_of(0) + Seq::<u8>::empty() =~= u32::bytes_of(0));
}

proof fn lemma_items_are_in_order<A: Encode>(list: Seq<A::V>)
    ensures
        wire::items_bytes::<A>(list) == list.fold_left(
            Seq::<u8>::empty(),
            |out: Seq<u8>, x: A::V| out + A::bytes_of(x),
        ),
    decreases list.len(),
{
    if list.len() > 0 {
        let f = |out: Seq<u8>, x: A::V| out + A::bytes_of(x);
        lemma_items_are_in_order::<A>(list.drop_last());
        lemma_items_end::<A>(list);
        assert(list.fold_left(Seq::<u8>::empty(), f) == list.drop_last().fold_left(
            Seq::<u8>::empty(),
            f,
        ) + A::bytes_of(list.last()));
    }
}

proof fn lemma_items_end<A: Encode>(list: Seq<A::V>)
    requires
        list.len() > 0,
    ensures
        wire::items_bytes::<A>(list) == wire::items_bytes::<A>(list.drop_last()) + A::bytes_of(
            list.last(),
        ),
    decreases list.len(),
{
    let rest = list.drop_first();
    if list.len() == 1 {
        assert(rest =~= Seq::empty());
        assert(list.drop_last() =~= Seq::empty());
        assert(wire::items_bytes::<A>(rest) =~= Seq::<u8>::empty());
        assert(wire::items_bytes::<A>(list) =~= A::bytes_of(list.last()));
        assert(Seq::<u8>::empty() + A::bytes_of(list.last()) =~= A::bytes_of(list.last()));
    } else {
        lemma_items_end::<A>(rest);
        assert(rest.drop_last() =~= list.drop_last().drop_first());
        assert(list.drop_last()[0] == list[0]);
        assert(rest.last() == list.last());
        let inner = wire::items_bytes::<A>(rest.drop_last());
        assert(A::bytes_of(list[0]) + (inner + A::bytes_of(list.last())) =~= (A::bytes_of(list[0])
            + inner) + A::bytes_of(list.last()));
    }
}

/// Reading bytes off the front: as many as were asked for, or none at all where there are
/// fewer. A length is four bytes, and none above sixteen mebibytes is taken.
pub proof fn law_how_bytes_are_taken(n: nat, s: Seq<u8>, len: u32)
    ensures
        n <= s.len() ==> parse_take(n, s) == (Parsed {
            value: Ok::<Seq<u8>, CodecFault>(s.take(n as int)),
            rest: s.skip(n as int),
        }),
        n > s.len() ==> parse_take(n, s) == (Parsed {
            value: Err::<Seq<u8>, CodecFault>(
                CodecFault::UnexpectedEof { wanted: n, left: s.len() },
            ),
            rest: s,
        }),
        u32::parse(s).value == Ok::<u32, CodecFault>(len) ==> parse_len(s).value == if len
            <= 16_777_216 {
            Ok::<nat, CodecFault>(len as nat)
        } else {
            Err(CodecFault::LengthTooLarge { len: len as nat })
        },
{
}

/// A value is read from bytes as a whole: bytes left over are refused, and how many there
/// are is said.
pub proof fn law_nothing_may_be_left_over<T: Decode>(s: Seq<u8>)
    ensures
        T::parse(s).value matches Err(f) ==> parse_exact::<T>(s) == Err::<T::V, CodecFault>(f),
        T::parse(s).value matches Ok(v) ==> (T::parse(s).rest.len() == 0 ==> parse_exact::<T>(s)
            == Ok::<T::V, CodecFault>(v)),
        T::parse(s).value is Ok && T::parse(s).rest.len() > 0 ==> parse_exact::<T>(s) == Err::<
            T::V,
            CodecFault,
        >(CodecFault::TrailingBytes { left: T::parse(s).rest.len() }),
{
}

/// The outcome of decoding is the value or the fault, as it is.
pub proof fn law_outcomes_are_passed_on<T: DeepView>(v: T, e: CodecError)
    ensures
        outcome(Ok::<T, CodecError>(v)) == Ok::<T::V, CodecFault>(v.deep_view()),
        outcome(Err::<T, CodecError>(e)) == Err::<T::V, CodecFault>(e.deep_view()),
{
}

} // verus!
