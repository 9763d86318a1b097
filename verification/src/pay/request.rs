//! Payment requests and the `afri:` URI scheme.
//!
//! ```text
//! afri:@amina?denom=sov%2Fke%2Fkes&amount=250.0&ref=88121&label=Duka%20la%20Amina
//! ```
//!
//! The recipient may be an alias, which a wallet resolves and shows before signing.
//! The amount is optional. The denomination is explicit and never defaulted:
//! guessing that a bare amount means AFRI would make a request for 250 shillings
//! pay 250 AFRI.

use crate::alias::{name_char, valid_username, Username};
use crate::crypto::address::{address_named, address_text, Address};
use crate::pay::reference::{law_reference_reads_back, reference_in, PaymentReference};
use crate::primitives::amount::{amount_text, decimal_units, law_amount_text_reads_back, Amount};
use crate::primitives::denom::{valid_denom, Denom};
use crate::primitives::text;
use vstd::prelude::*;
use vstd::utf8::{decode_utf8, encode_utf8, is_ascii_chars, valid_utf8};

verus! {

/// The URI scheme.
pub const SCHEME: &'static str = "afri";

/// Longest permitted label or note, in bytes. Both are attacker-controlled text
/// that a wallet will render.
pub const MAX_TEXT_LEN: usize = 128;

/// Why a payment request could not be parsed.
#[derive(Debug, Clone, PartialEq, Eq)]
pub enum RequestError {
    /// Not an `afri:` URI.
    WrongScheme,
    /// The recipient was missing or unparseable.
    BadRecipient,
    /// A query parameter was malformed.
    BadParameter(String),
    /// The denomination was absent or invalid.
    BadDenom,
    /// The amount was not a valid decimal quantity.
    BadAmount,
    /// Label or note exceeded [`MAX_TEXT_LEN`].
    TextTooLong,
    /// The same parameter appeared twice. Rejected rather than resolved: what such
    /// a request means depends on which a parser keeps.
    DuplicateParameter(String),
}

/// The mathematical view of a [`RequestError`].
pub enum RequestFault {
    WrongScheme,
    BadRecipient,
    BadParameter(Seq<char>),
    BadDenom,
    BadAmount,
    TextTooLong,
    DuplicateParameter(Seq<char>),
}

impl DeepView for RequestError {
    type V = RequestFault;

    open spec fn deep_view(&self) -> RequestFault {
        match *self {
            RequestError::WrongScheme => RequestFault::WrongScheme,
            RequestError::BadRecipient => RequestFault::BadRecipient,
            RequestError::BadParameter(p) => RequestFault::BadParameter(p@),
            RequestError::BadDenom => RequestFault::BadDenom,
            RequestError::BadAmount => RequestFault::BadAmount,
            RequestError::TextTooLong => RequestFault::TextTooLong,
            RequestError::DuplicateParameter(p) => RequestFault::DuplicateParameter(p@),
        }
    }
}

impl RequestFault {
    /// The sentence that describes this error.
    pub open spec fn text(self) -> Seq<char> {
        match self {
            RequestFault::WrongScheme => "payment request must begin with 'afri:'"@,
            RequestFault::BadRecipient => "payment request names no valid recipient"@,
            RequestFault::BadParameter(key) => "malformed parameter "@ + text::debug_form(key),
            RequestFault::BadDenom => "payment request must name a valid denomination"@,
            RequestFault::BadAmount => "amount is not a valid decimal quantity"@,
            RequestFault::TextTooLong => "text field exceeds 128 bytes"@,
            RequestFault::DuplicateParameter(key) =>
                "parameter "@ + text::debug_form(key) + " appears more than once"@,
        }
    }
}

impl RequestError {
    /// The sentence that describes this error.
    pub fn to_string(&self) -> (s: String)
        ensures
            s@ == self.deep_view().text(),
    {
        match self {
            RequestError::WrongScheme => String::from_str(
                "payment request must begin with 'afri:'",
            ),
            RequestError::BadRecipient => String::from_str(
                "payment request names no valid recipient",
            ),
            RequestError::BadParameter(key) => {
                let mut s = String::from_str("malformed parameter ");
                s.append(text::quoted(key.as_str()).as_str());
                s
            },
            RequestError::BadDenom => String::from_str(
                "payment request must name a valid denomination",
            ),
            RequestError::BadAmount => String::from_str("amount is not a valid decimal quantity"),
            RequestError::TextTooLong => String::from_str("text field exceeds 128 bytes"),
            RequestError::DuplicateParameter(key) => {
                let mut s = String::from_str("parameter ");
                s.append(text::quoted(key.as_str()).as_str());
                s.append(" appears more than once");
                s
            },
        }
    }
}

/// Who a payment request names.
#[derive(Debug, Clone, PartialEq, Eq)]
pub enum Payee {
    /// A raw account address.
    Address(Address),
    /// A username, to be resolved and confirmed before paying.
    Name(Username),
}

/// The mathematical view of a [`Payee`].
pub enum PayeeView {
    Address(Address),
    Name(Seq<char>),
}

impl DeepView for Payee {
    type V = PayeeView;

    open spec fn deep_view(&self) -> PayeeView {
        match *self {
            Payee::Address(a) => PayeeView::Address(a),
            Payee::Name(n) => PayeeView::Name(n@),
        }
    }
}

impl PayeeView {
    /// How a payee is written.
    pub open spec fn text(self) -> Seq<char> {
        match self {
            PayeeView::Address(a) => address_text(a)->0,
            PayeeView::Name(n) => "@"@ + n,
        }
    }
}

/// The payee that a text names.
pub open spec fn payee_in(s: Seq<char>) -> Option<PayeeView> {
    if s.len() > 0 && s[0] == '@' {
        if valid_username(s.skip(1)) {
            Some(PayeeView::Name(s.skip(1)))
        } else {
            None
        }
    } else {
        match address_named(s) {
            Some(a) => Some(PayeeView::Address(a)),
            None => None,
        }
    }
}

impl Payee {
    /// How this payee is written.
    pub fn to_string(&self) -> (s: String)
        ensures
            s@ == self.deep_view().text(),
            payee_in(s@) == Some(self.deep_view()),
            forall|i: int| 0 <= i < s@.len() ==> #[trigger] s@[i] != '?',
    {
        match self {
            Payee::Address(a) => {
                let s = a.to_string();
                assert forall|i: int| 0 <= i < s@.len() implies #[trigger] s@[i] != '?' by {
                    assert(text::is_lower(s@[i]) || text::is_digit(s@[i]));
                }
                s
            },
            Payee::Name(n) => {
                proof {
                    use_type_invariant(n);
                    reveal_strlit("@");
                }
                let s = n.to_string();
                proof {
                    assert(s@.skip(1) =~= n@);
                    assert forall|i: int| 0 <= i < s@.len() implies #[trigger] s@[i] != '?' by {
                        if i > 0 {
                            assert(s@[i] == n@[i - 1]);
                            assert(name_char(n@[i - 1]));
                        }
                    }
                }
                s
            },
        }
    }
}

fn parse_payee(part: &[char]) -> (r: Option<Payee>)
    ensures
        r.deep_view() == payee_in(part@),
{
    if part.len() > 0 && part[0] == '@' {
        let name = text::chars_between(part, 1, part.len());
        assert(name@ =~= part@.skip(1));
        let name = text::string_of(name.as_slice());
        match Username::new(name.as_str()) {
            Ok(n) => Some(Payee::Name(n)),
            Err(_) => None,
        }
    } else {
        let s = text::string_of(part);
        match Address::from_bech32(s.as_str()) {
            Ok(a) => Some(Payee::Address(a)),
            Err(_) => None,
        }
    }
}

// ---------------------------------------------------------------------------
// Percent escapes
// ---------------------------------------------------------------------------

/// A byte that stands for itself: a letter, a digit, `-`, `_`, `.` or `~`. A slash
/// does not, because denominations contain slashes.
pub open spec fn unreserved(b: u8) -> bool {
    ||| 97 <= b <= 122
    ||| 65 <= b <= 90
    ||| 48 <= b <= 57
    ||| b == 45
    ||| b == 95
    ||| b == 46
    ||| b == 126
}

/// A digit in uppercase hexadecimal.
pub open spec fn upper_hex(d: nat) -> char {
    if d < 10 {
        (48 + d) as char
    } else {
        (55 + d) as char
    }
}

/// Bytes with every reserved one percent-encoded.
pub open spec fn escaped(bytes: Seq<u8>) -> Seq<char>
    decreases bytes.len(),
{
    if bytes.len() == 0 {
        Seq::empty()
    } else {
        let b = bytes[0];
        let head = if unreserved(b) {
            seq![b as char]
        } else {
            seq!['%', upper_hex((b / 16) as nat), upper_hex((b % 16) as nat)]
        };
        head + escaped(bytes.drop_first())
    }
}

/// The value of a hexadecimal digit, in either case.
pub open spec fn hex_value(b: u8) -> Option<u8> {
    if 48 <= b <= 57 {
        Some((b - 48) as u8)
    } else if 97 <= b <= 102 {
        Some((b - 87) as u8)
    } else if 65 <= b <= 70 {
        Some((b - 55) as u8)
    } else {
        None
    }
}

/// Bytes with percent escapes undone, if none is malformed. A plus stays a plus.
pub open spec fn unescaped(bytes: Seq<u8>) -> Option<Seq<u8>>
    decreases bytes.len(),
{
    if bytes.len() == 0 {
        Some(Seq::empty())
    } else if bytes[0] == 37 {
        if bytes.len() < 3 {
            None
        } else {
            match (hex_value(bytes[1]), hex_value(bytes[2]), unescaped(bytes.skip(3))) {
                (Some(hi), Some(lo), Some(rest)) => Some(seq![(16 * hi + lo) as u8] + rest),
                _ => None,
            }
        }
    } else {
        match unescaped(bytes.drop_first()) {
            Some(rest) => Some(seq![bytes[0]] + rest),
            None => None,
        }
    }
}

/// A text as it stands in a query.
pub open spec fn component(s: Seq<char>) -> Seq<char> {
    escaped(encode_utf8(s))
}

/// The text that a part of a query stands for.
pub open spec fn component_value(s: Seq<char>) -> Option<Seq<char>> {
    match unescaped(encode_utf8(s)) {
        Some(bytes) => if valid_utf8(bytes) {
            Some(decode_utf8(bytes))
        } else {
            None
        },
        None => None,
    }
}

fn upper_hex_char(d: u8) -> (c: char)
    requires
        d < 16,
    ensures
        c == upper_hex(d as nat),
{
    if d < 10 {
        (48 + d) as char
    } else {
        (55 + d) as char
    }
}

/// Percent-encode everything outside the unreserved set.
pub fn encode_component(s: &str) -> (out: String)
    ensures
        out@ == component(s@),
        component_value(out@) == Some(s@),
        forall|i: int| 0 <= i < out@.len() ==> escape_char(#[trigger] out@[i]),
{
    proof {
        law_escapes_read_back(s@);
    }
    let bytes = s.as_bytes();
    let mut out = String::new();
    let mut i: usize = 0;
    assert(bytes@.skip(0) =~= bytes@);
    assert(out@ + escaped(bytes@) =~= escaped(bytes@));
    while i < bytes.len()
        invariant
            i <= bytes@.len(),
            out@ + escaped(bytes@.skip(i as int)) == escaped(bytes@),
        decreases bytes@.len() - i,
    {
        let b: u8 = bytes[i];
        let ghost before = out@;
        let ghost rest = bytes@.skip(i as int);
        assert(rest[0] == b);
        assert(rest.drop_first() =~= bytes@.skip(i as int + 1));
        if (97 <= b && b <= 122) || (65 <= b && b <= 90) || (48 <= b && b <= 57) || b == 45 || b
            == 95 || b == 46 || b == 126 {
            out.push(b as char);
            assert(out@ + escaped(rest.drop_first()) =~= before + escaped(rest));
        } else {
            out.push('%');
            out.push(upper_hex_char(b / 16));
            out.push(upper_hex_char(b % 16));
            assert(out@ + escaped(rest.drop_first()) =~= before + escaped(rest));
        }
        i += 1;
    }
    assert(bytes@.skip(bytes@.len() as int) =~= Seq::empty());
    assert(out@ + Seq::<char>::empty() =~= out@);
    out
}

fn hex_digit_value(b: u8) -> (r: Option<u8>)
    ensures
        r == hex_value(b),
        r matches Some(d) ==> d < 16,
{
    if 48 <= b && b <= 57 {
        Some(b - 48)
    } else if 97 <= b && b <= 102 {
        Some(b - 87)
    } else if 65 <= b && b <= 70 {
        Some(b - 55)
    } else {
        None
    }
}

/// Undoing the rest of the escapes, after some bytes.
pub open spec fn continued(done: Seq<u8>, rest: Seq<u8>) -> Option<Seq<u8>> {
    match unescaped(rest) {
        Some(bytes) => Some(done + bytes),
        None => None,
    }
}

/// Percent-decode, rejecting malformed escapes rather than passing them through.
pub fn decode_component(s: &str) -> (r: Option<String>)
    ensures
        r.deep_view() == component_value(s@),
{
    let bytes = s.as_bytes();
    let mut out: Vec<u8> = Vec::new();
    let mut i: usize = 0;
    proof {
        assert(bytes@.skip(0) =~= bytes@);
        if let Some(all) = unescaped(bytes@) {
            assert(out@ + all =~= all);
        }
    }
    while i < bytes.len()
        invariant
            i <= bytes@.len(),
            bytes@ == encode_utf8(s@),
            continued(out@, bytes@.skip(i as int)) == unescaped(bytes@),
        decreases bytes@.len() - i,
    {
        let b: u8 = bytes[i];
        let ghost rest = bytes@.skip(i as int);
        let ghost done = out@;
        assert(rest[0] == b);
        if b == 37 {
            if bytes.len() - i < 3 {
                return None;
            }
            assert(rest[1] == bytes@[i + 1] && rest[2] == bytes@[i + 2]);
            assert(rest.skip(3) =~= bytes@.skip(i + 3));
            match (hex_digit_value(bytes[i + 1]), hex_digit_value(bytes[i + 2])) {
                (Some(hi), Some(lo)) => {
                    out.push(16 * hi + lo);
                    proof {
                        if let Some(more) = unescaped(rest.skip(3)) {
                            assert(out@ + more =~= done + (seq![(16 * hi + lo) as u8] + more));
                        }
                    }
                    i += 3;
                },
                _ => {
                    return None;
                },
            }
        } else {
            out.push(b);
            proof {
                assert(rest.drop_first() =~= bytes@.skip(i + 1));
                if let Some(more) = unescaped(rest.drop_first()) {
                    assert(out@ + more =~= done + (seq![b] + more));
                }
            }
            i += 1;
        }
    }
    proof {
        assert(bytes@.skip(bytes@.len() as int) =~= Seq::empty());
        assert(unescaped(Seq::<u8>::empty()) == Some(Seq::<u8>::empty()));
        assert(out@ + Seq::<u8>::empty() =~= out@);
    }
    match text::string_from_utf8(out) {
        Ok(s) => Some(s),
        Err(_) => None,
    }
}

// ---------------------------------------------------------------------------
// Queries
// ---------------------------------------------------------------------------

/// A query parted at its ampersands.
pub open spec fn pieces(query: Seq<char>) -> Seq<Seq<char>>
    decreases query.len(),
{
    let p = text::position(query, '&') as int;
    if p >= query.len() {
        seq![query]
    } else {
        seq![query.take(p)] + pieces(query.skip(p + 1))
    }
}

/// What has been read of a query.
pub struct Reading {
    pub denom: Option<Seq<char>>,
    pub amount: Option<Amount>,
    pub reference: Option<PaymentReference>,
    pub label: Option<Seq<char>>,
    pub note: Option<Seq<char>>,
    pub seen: Seq<Seq<char>>,
}

/// The amount that a text denotes.
pub open spec fn amount_in(s: Seq<char>) -> Option<Amount> {
    match decimal_units(s) {
        Some(n) => if n <= u128::MAX {
            Some(Amount(n as u128))
        } else {
            None
        },
        None => None,
    }
}

/// Reading a parameter whose value is decoded.
pub open spec fn read_value(
    st: Reading,
    key: Seq<char>,
    value: Seq<char>,
) -> Result<Reading, RequestFault> {
    if key == "denom"@ {
        if valid_denom(value) {
            Ok(Reading { denom: Some(value), ..st })
        } else {
            Err(RequestFault::BadDenom)
        }
    } else if key == "amount"@ {
        match amount_in(value) {
            Some(a) => Ok(Reading { amount: Some(a), ..st }),
            None => Err(RequestFault::BadAmount),
        }
    } else if key == "ref"@ {
        match reference_in(value) {
            Some(r) => Ok(Reading { reference: Some(r), ..st }),
            None => Err(RequestFault::BadParameter("ref"@)),
        }
    } else if key == "label"@ {
        if encode_utf8(value).len() <= MAX_TEXT_LEN {
            Ok(Reading { label: Some(value), ..st })
        } else {
            Err(RequestFault::TextTooLong)
        }
    } else if key == "note"@ {
        if encode_utf8(value).len() <= MAX_TEXT_LEN {
            Ok(Reading { note: Some(value), ..st })
        } else {
            Err(RequestFault::TextTooLong)
        }
    } else {
        Ok(st)
    }
}

/// Reading one parameter. An unknown one is ignored, so that a wallet built today
/// keeps working against a merchant that adds a field tomorrow.
pub open spec fn read_pair(st: Reading, pair: Seq<char>) -> Result<Reading, RequestFault> {
    let p = text::position(pair, '=') as int;
    if pair.len() == 0 {
        Ok(st)
    } else if p >= pair.len() {
        Err(RequestFault::BadParameter(pair))
    } else if st.seen.contains(pair.take(p)) {
        Err(RequestFault::DuplicateParameter(pair.take(p)))
    } else {
        match component_value(pair.skip(p + 1)) {
            None => Err(RequestFault::BadParameter(pair.take(p))),
            Some(value) => read_value(
                Reading { seen: st.seen.push(pair.take(p)), ..st },
                pair.take(p),
                value,
            ),
        }
    }
}

/// Reading parameters one after another, up to the first that is refused.
pub open spec fn read_pairs(st: Reading, pairs: Seq<Seq<char>>) -> Result<Reading, RequestFault>
    decreases pairs.len(),
{
    if pairs.len() == 0 {
        Ok(st)
    } else {
        match read_pair(st, pairs[0]) {
            Err(f) => Err(f),
            Ok(next) => read_pairs(next, pairs.drop_first()),
        }
    }
}

/// Nothing read yet.
pub open spec fn nothing_read() -> Reading {
    Reading {
        denom: None,
        amount: None,
        reference: None,
        label: None,
        note: None,
        seen: Seq::empty(),
    }
}

/// A request to be paid.
#[derive(Debug, Clone, PartialEq, Eq)]
pub struct PaymentRequest {
    /// Who is to be paid.
    pub payee: Payee,
    /// Which asset. Never defaulted.
    pub denom: Denom,
    /// How much, or `None` for "payer decides".
    pub amount: Option<Amount>,
    /// The recipient's own reconciliation reference.
    pub reference: Option<PaymentReference>,
    /// Who the payee is, for display.
    pub label: Option<String>,
    /// What the payment is for, for display.
    pub note: Option<String>,
}

/// The mathematical view of a [`PaymentRequest`].
pub struct RequestView {
    pub payee: PayeeView,
    pub denom: Seq<char>,
    pub amount: Option<Amount>,
    pub reference: Option<PaymentReference>,
    pub label: Option<Seq<char>>,
    pub note: Option<Seq<char>>,
}

impl DeepView for PaymentRequest {
    type V = RequestView;

    open spec fn deep_view(&self) -> RequestView {
        RequestView {
            payee: self.payee.deep_view(),
            denom: self.denom@,
            amount: self.amount,
            reference: self.reference,
            label: self.label.deep_view(),
            note: self.note.deep_view(),
        }
    }
}

/// A parameter of a query.
pub open spec fn parameter(key: Seq<char>, value: Seq<char>) -> Seq<char> {
    key + "="@ + value
}

/// No parameter or one.
pub open spec fn optional_parameter(key: Seq<char>, value: Option<Seq<char>>) -> Seq<Seq<char>> {
    match value {
        Some(v) => seq![parameter(key, v)],
        None => Seq::empty(),
    }
}

/// Parameters with ampersands between them.
pub open spec fn joined(params: Seq<Seq<char>>) -> Seq<char>
    decreases params.len(),
{
    if params.len() == 0 {
        Seq::empty()
    } else if params.len() == 1 {
        params[0]
    } else {
        joined(params.drop_last()) + "&"@ + params.last()
    }
}

impl RequestView {
    /// The parameters of the request's URI.
    pub open spec fn parameters(self) -> Seq<Seq<char>> {
        seq![parameter("denom"@, component(self.denom))] + optional_parameter(
            "amount"@,
            match self.amount {
                Some(a) => Some(amount_text(a.0 as nat)),
                None => None,
            },
        ) + optional_parameter(
            "ref"@,
            match self.reference {
                Some(r) => Some(text::decimal(r.0 as nat)),
                None => None,
            },
        ) + optional_parameter(
            "label"@,
            match self.label {
                Some(l) => Some(component(l)),
                None => None,
            },
        ) + optional_parameter(
            "note"@,
            match self.note {
                Some(n) => Some(component(n)),
                None => None,
            },
        )
    }

    /// The request's URI.
    pub open spec fn uri(self) -> Seq<char> {
        SCHEME@ + ":"@ + self.payee.text() + "?"@ + joined(self.parameters())
    }

    /// Whether the texts for display are short enough to be read back.
    pub open spec fn texts_fit(self) -> bool {
        &&& self.label matches Some(l) ==> encode_utf8(l).len() <= MAX_TEXT_LEN
        &&& self.note matches Some(n) ==> encode_utf8(n).len() <= MAX_TEXT_LEN
    }
}

/// What comes of the payee and the query of a URI.
pub open spec fn request_of(payee: Seq<char>, query: Seq<char>) -> Result<
    RequestView,
    RequestFault,
> {
    match payee_in(payee) {
        None => Err(RequestFault::BadRecipient),
        Some(payee) => match read_pairs(nothing_read(), pieces(query)) {
            Err(f) => Err(f),
            Ok(st) => match st.denom {
                None => Err(RequestFault::BadDenom),
                Some(denom) => Ok(
                    RequestView {
                        payee,
                        denom,
                        amount: st.amount,
                        reference: st.reference,
                        label: st.label,
                        note: st.note,
                    },
                ),
            },
        },
    }
}

/// What reading an `afri:` URI gives.
pub open spec fn request_in(uri: Seq<char>) -> Result<RequestView, RequestFault> {
    if !(SCHEME@ + ":"@).is_prefix_of(uri) {
        Err(RequestFault::WrongScheme)
    } else {
        let rest = uri.skip(5);
        let p = text::position(rest, '?') as int;
        if p < rest.len() {
            request_of(rest.take(p), rest.skip(p + 1))
        } else {
            request_of(rest, Seq::empty())
        }
    }
}

/// The view of the result of parsing.
pub open spec fn parsed_request(r: Result<PaymentRequest, RequestError>) -> Result<
    RequestView,
    RequestFault,
> {
    match r {
        Ok(request) => Ok(request.deep_view()),
        Err(e) => Err(e.deep_view()),
    }
}

/// A query as it is being read.
struct Draft {
    denom: Option<Denom>,
    amount: Option<Amount>,
    reference: Option<PaymentReference>,
    label: Option<String>,
    note: Option<String>,
    seen: Vec<Vec<char>>,
}

impl Draft {
    spec fn reading(&self) -> Reading {
        Reading {
            denom: self.denom.deep_view(),
            amount: self.amount,
            reference: self.reference,
            label: self.label.deep_view(),
            note: self.note.deep_view(),
            seen: self.seen.deep_view(),
        }
    }

    /// Whether a key has been read already.
    fn has_seen(&self, key: &Vec<char>) -> (b: bool)
        ensures
            b == self.reading().seen.contains(key@),
    {
        let ghost seen = self.reading().seen;
        let mut i: usize = 0;
        while i < self.seen.len()
            invariant
                i <= self.seen@.len(),
                seen == self.seen.deep_view(),
                seen == self.reading().seen,
                forall|j: int| 0 <= j < i ==> seen[j] != key@,
            decreases self.seen@.len() - i,
        {
            assert(self.seen@[i as int].deep_view() =~= self.seen@[i as int]@);
            assert(seen[i as int] == self.seen@[i as int]@);
            if same_chars(&self.seen[i], key) {
                assert(seen[i as int] == key@);
                return true;
            }
            i += 1;
        }
        false
    }

    /// Read one parameter.
    fn read(&mut self, pair: &[char]) -> (r: Result<(), RequestError>)
        ensures
            match read_pair(old(self).reading(), pair@) {
                Ok(st) => r is Ok && final(self).reading() == st,
                Err(f) => r matches Err(e) && e.deep_view() == f,
            },
    {
        if pair.len() == 0 {
            return Ok(());
        }
        let p: usize = text::find_char(pair, '=');
        if p >= pair.len() {
            return Err(RequestError::BadParameter(text::string_of(pair)));
        }
        let key = text::chars_between(pair, 0, p);
        assert(key@ =~= pair@.take(p as int));
        let name = text::string_of(key.as_slice());
        if self.has_seen(&key) {
            return Err(RequestError::DuplicateParameter(name));
        }
        let ghost before = self.reading();
        let ghost key_view = key@;
        assert(key.deep_view() =~= key@);
        self.seen.push(key);
        assert(self.seen.deep_view() =~= before.seen.push(key_view));
        let raw = text::chars_between(pair, p + 1, pair.len());
        assert(raw@ =~= pair@.skip(p + 1));
        let raw = text::string_of(raw.as_slice());
        match decode_component(raw.as_str()) {
            None => Err(RequestError::BadParameter(name)),
            Some(value) => self.store(name.as_str(), value),
        }
    }

    /// Keep the value of a parameter.
    fn store(&mut self, key: &str, value: String) -> (r: Result<(), RequestError>)
        ensures
            match read_value(old(self).reading(), key@, value@) {
                Ok(st) => r is Ok && final(self).reading() == st,
                Err(f) => r matches Err(e) && e.deep_view() == f,
            },
    {
        if text::same_text(key, "denom") {
            match Denom::new(value.as_str()) {
                Ok(d) => {
                    self.denom = Some(d);
                    Ok(())
                },
                Err(_) => Err(RequestError::BadDenom),
            }
        } else if text::same_text(key, "amount") {
            match Amount::from_decimal(value.as_str()) {
                Ok(a) => {
                    self.amount = Some(a);
                    Ok(())
                },
                Err(_) => Err(RequestError::BadAmount),
            }
        } else if text::same_text(key, "ref") {
            match PaymentReference::parse(value.as_str()) {
                Some(reference) => {
                    self.reference = Some(reference);
                    Ok(())
                },
                None => Err(RequestError::BadParameter(String::from_str("ref"))),
            }
        } else if text::same_text(key, "label") {
            self.label = Some(bounded(value)?);
            Ok(())
        } else if text::same_text(key, "note") {
            self.note = Some(bounded(value)?);
            Ok(())
        } else {
            Ok(())
        }
    }
}

/// A text for display, if it is short enough.
fn bounded(value: String) -> (r: Result<String, RequestError>)
    ensures
        r == if encode_utf8(value@).len() > MAX_TEXT_LEN {
            Err(RequestError::TextTooLong)
        } else {
            Ok(value)
        },
{
    if text::byte_len(value.as_str()) > MAX_TEXT_LEN {
        return Err(RequestError::TextTooLong);
    }
    Ok(value)
}

fn same_chars(a: &Vec<char>, b: &Vec<char>) -> (r: bool)
    ensures
        r == (a@ == b@),
{
    if a.len() != b.len() {
        return false;
    }
    let mut i: usize = 0;
    while i < a.len()
        invariant
            i <= a@.len(),
            a@.len() == b@.len(),
            forall|j: int| 0 <= j < i ==> a@[j] == b@[j],
        decreases a@.len() - i,
    {
        if a[i] != b[i] {
            return false;
        }
        i += 1;
    }
    assert(a@ =~= b@);
    true
}

/// Part a query at its ampersands.
fn split_query(query: &[char]) -> (out: Vec<Vec<char>>)
    ensures
        out.deep_view() == pieces(query@),
{
    let mut out: Vec<Vec<char>> = Vec::new();
    let mut at: usize = 0;
    assert(query@.skip(0) =~= query@);
    assert(out.deep_view() + pieces(query@) =~= pieces(query@));
    loop
        invariant_except_break
            at <= query@.len(),
            out.deep_view() + pieces(query@.skip(at as int)) == pieces(query@),
        ensures
            out.deep_view() == pieces(query@),
        decreases query@.len() - at,
    {
        let rest = text::chars_between(query, at, query.len());
        assert(rest@ =~= query@.skip(at as int));
        let p: usize = text::find_char(rest.as_slice(), '&');
        proof {
            text::lemma_position(rest@, '&');
        }
        let piece = text::chars_between(rest.as_slice(), 0, p);
        assert(piece@ =~= rest@.take(p as int));
        let ghost before = out.deep_view();
        let ghost piece_view = piece@;
        assert(piece.deep_view() =~= piece@);
        out.push(piece);
        assert(out.deep_view() =~= before.push(piece_view));
        if p >= rest.len() {
            assert(piece_view =~= rest@);
            assert(out.deep_view() =~= before + pieces(rest@));
            break;
        }
        assert(rest@.skip(p + 1) =~= query@.skip(at + p + 1));
        assert(out.deep_view() + pieces(rest@.skip(p + 1)) =~= before + pieces(rest@));
        at = at + p + 1;
    }
    out
}

impl PaymentRequest {
    /// The simplest useful request: pay this party, in this asset, any amount.
    pub fn new(payee: Payee, denom: Denom) -> (r: Self)
        ensures
            r == (PaymentRequest {
                payee,
                denom,
                amount: None,
                reference: None,
                label: None,
                note: None,
            }),
    {
        PaymentRequest { payee, denom, amount: None, reference: None, label: None, note: None }
    }

    /// Fix the amount.
    pub fn with_amount(self, amount: Amount) -> (r: Self)
        ensures
            r.deep_view() == (RequestView { amount: Some(amount), ..self.deep_view() }),
    {
        let mut r = self;
        r.amount = Some(amount);
        r
    }

    /// Attach a reconciliation reference.
    pub fn with_reference(self, reference: PaymentReference) -> (r: Self)
        ensures
            r.deep_view() == (RequestView { reference: Some(reference), ..self.deep_view() }),
    {
        let mut r = self;
        r.reference = Some(reference);
        r
    }

    /// Attach a display label for the payee.
    pub fn with_label(self, label: &str) -> (r: Self)
        ensures
            r.deep_view() == (RequestView { label: Some(label@), ..self.deep_view() }),
    {
        let mut r = self;
        r.label = Some(String::from_str(label));
        r
    }

    /// Attach a note describing what the payment is for.
    pub fn with_note(self, note: &str) -> (r: Self)
        ensures
            r.deep_view() == (RequestView { note: Some(note@), ..self.deep_view() }),
    {
        let mut r = self;
        r.note = Some(String::from_str(note));
        r
    }

    /// Render as an `afri:` URI.
    ///
    /// What is written reads back as the request, as long as its texts for display
    /// are short enough.
    pub fn to_uri(&self) -> (s: String)
        ensures
            s@ == self.deep_view().uri(),
            self.deep_view().texts_fit() ==> request_in(s@) == Ok::<RequestView, RequestFault>(
                self.deep_view(),
            ),
    {
        let ghost v = self.deep_view();
        let payee = self.payee.to_string();
        let mut query = String::from_str("denom=");
        query.append(encode_component(self.denom.as_str()).as_str());
        proof {
            reveal_strlit("denom=");
            reveal_strlit("denom");
            reveal_strlit("=");
            assert("denom="@ =~= "denom"@ + "="@);
            assert(query@ =~= parameter("denom"@, component(v.denom)));
        }
        let ghost mut params = seq![parameter("denom"@, component(v.denom))];
        if let Some(amount) = self.amount {
            push_parameter(&mut query, "amount", amount.to_decimal().as_str(), Ghost(params));
            proof {
                params = params.push(parameter("amount"@, amount_text(amount.0 as nat)));
            }
        }
        if let Some(reference) = self.reference {
            push_parameter(&mut query, "ref", reference.to_decimal().as_str(), Ghost(params));
            proof {
                params = params.push(parameter("ref"@, text::decimal(reference.0 as nat)));
            }
        }
        if let Some(label) = &self.label {
            push_parameter(
                &mut query,
                "label",
                encode_component(label.as_str()).as_str(),
                Ghost(params),
            );
            proof {
                params = params.push(parameter("label"@, component(label@)));
            }
        }
        if let Some(note) = &self.note {
            push_parameter(
                &mut query,
                "note",
                encode_component(note.as_str()).as_str(),
                Ghost(params),
            );
            proof {
                params = params.push(parameter("note"@, component(note@)));
            }
        }
        assert(params =~= v.parameters());
        let mut out = String::from_str(SCHEME);
        out.append(":");
        out.append(payee.as_str());
        out.append("?");
        out.append(query.as_str());
        proof {
            use_type_invariant(&self.denom);
            if v.texts_fit() {
                lemma_uri_reads_back(v);
            }
        }
        out
    }

    /// The request as an `afri:` URI.
    pub fn to_string(&self) -> (s: String)
        ensures
            s@ == self.deep_view().uri(),
    {
        self.to_uri()
    }

    /// Parse an `afri:` URI from untrusted input. The error is the first one
    /// encountered.
    pub fn parse(uri: &str) -> (r: Result<Self, RequestError>)
        ensures
            parsed_request(r) == request_in(uri@),
    {
        proof {
            reveal_strlit("afri:");
            reveal_strlit("afri");
            reveal_strlit(":");
            assert("afri:"@ =~= SCHEME@ + ":"@);
        }
        if !text::has_prefix(uri, "afri:") {
            return Err(RequestError::WrongScheme);
        }
        let chars = text::chars_of(uri);
        let rest = text::chars_between(chars.as_slice(), 5, chars.len());
        assert(rest@ =~= uri@.skip(5));
        let p: usize = text::find_char(rest.as_slice(), '?');
        proof {
            text::lemma_position(rest@, '?');
        }
        let part = text::chars_between(rest.as_slice(), 0, p);
        let query = if p < rest.len() {
            text::chars_between(rest.as_slice(), p + 1, rest.len())
        } else {
            Vec::new()
        };
        assert(part@ =~= rest@.take(p as int));
        assert(p < rest@.len() ==> query@ =~= rest@.skip(p + 1));
        assert(p >= rest@.len() ==> part@ =~= rest@);
        let payee = match parse_payee(part.as_slice()) {
            Some(payee) => payee,
            None => {
                return Err(RequestError::BadRecipient);
            },
        };
        let ghost want = request_of(part@, query@);
        let pairs = split_query(query.as_slice());
        let ghost all = pairs.deep_view();
        let mut draft = Draft {
            denom: None,
            amount: None,
            reference: None,
            label: None,
            note: None,
            seen: Vec::new(),
        };
        assert(draft.seen.deep_view() =~= Seq::empty());
        assert(draft.reading() == nothing_read());
        let mut i: usize = 0;
        assert(all.skip(0) =~= all);
        while i < pairs.len()
            invariant
                i <= pairs@.len(),
                all == pairs.deep_view(),
                all == pieces(query@),
                request_in(uri@) == want,
                want == request_of(part@, query@),
                payee_in(part@) == Some(payee.deep_view()),
                read_pairs(nothing_read(), all) == read_pairs(
                    draft.reading(),
                    all.skip(i as int),
                ),
            decreases pairs@.len() - i,
        {
            assert(all.skip(i as int)[0] == all[i as int]);
            assert(all.skip(i as int).drop_first() =~= all.skip(i as int + 1));
            assert(pairs@[i as int].deep_view() =~= pairs@[i as int]@);
            match draft.read(pairs[i].as_slice()) {
                Ok(()) => {},
                Err(e) => {
                    return Err(e);
                },
            }
            i += 1;
        }
        assert(all.skip(all.len() as int).len() == 0);
        match draft.denom {
            None => Err(RequestError::BadDenom),
            Some(denom) => Ok(
                PaymentRequest {
                    payee,
                    denom,
                    amount: draft.amount,
                    reference: draft.reference,
                    label: draft.label,
                    note: draft.note,
                },
            ),
        }
    }
}

/// Append a parameter to a query that has one already.
fn push_parameter(query: &mut String, key: &str, value: &str, Ghost(params): Ghost<Seq<Seq<char>>>)
    requires
        params.len() > 0,
        old(query)@ == joined(params),
    ensures
        final(query)@ == joined(params.push(parameter(key@, value@))),
{
    query.append("&");
    query.append(key);
    query.append("=");
    query.append(value);
    proof {
        let more = params.push(parameter(key@, value@));
        assert(more.drop_last() =~= params);
        assert(query@ =~= joined(params) + "&"@ + parameter(key@, value@));
    }
}

// ---------------------------------------------------------------------------
// What is written reads back
// ---------------------------------------------------------------------------

/// Characters that stand for themselves in a query: ASCII, and none of `&`, `=`,
/// `?` and `%`.
pub open spec fn quiet(s: Seq<char>) -> bool {
    &&& is_ascii_chars(s)
    &&& forall|i: int|
        0 <= i < s.len() ==> #[trigger] s[i] != '&' && s[i] != '=' && s[i] != '%'
}

/// ASCII, and no `&` or `=`.
pub open spec fn unbroken(s: Seq<char>) -> bool {
    &&& is_ascii_chars(s)
    &&& forall|i: int| 0 <= i < s.len() ==> #[trigger] s[i] != '&' && s[i] != '='
}

/// A character that an escaped text is made of: an ASCII letter or digit, `-`, `_`, `.`,
/// `~`, or the `%` of an escape.
pub open spec fn escape_char(c: char) -> bool {
    ||| 'a' <= c <= 'z'
    ||| 'A' <= c <= 'Z'
    ||| '0' <= c <= '9'
    ||| c == '-'
    ||| c == '_'
    ||| c == '.'
    ||| c == '~'
    ||| c == '%'
}

proof fn lemma_escaped(bytes: Seq<u8>)
    ensures
        unbroken(escaped(bytes)),
        forall|i: int| 0 <= i < escaped(bytes).len() ==> escape_char(#[trigger] escaped(bytes)[i]),
        unescaped(encode_utf8(escaped(bytes))) == Some(bytes),
    decreases bytes.len(),
{
    let out = escaped(bytes);
    if bytes.len() == 0 {
        assert(out =~= Seq::empty());
        vstd::utf8::is_ascii_chars_encode_utf8(out);
        assert(encode_utf8(out) =~= Seq::empty());
        assert(bytes =~= Seq::empty());
    } else {
        let b = bytes[0];
        let low = escaped(bytes.drop_first());
        lemma_escaped(bytes.drop_first());
        let head = if unreserved(b) {
            seq![b as char]
        } else {
            seq!['%', upper_hex((b / 16) as nat), upper_hex((b % 16) as nat)]
        };
        assert(out == head + low);
        assert forall|i: int| 0 <= i < out.len() implies '\0' <= #[trigger] out[i] <= '\u{7f}'
            && out[i] != '&' && out[i] != '=' && escape_char(out[i]) by {
            if i >= head.len() {
                assert(out[i] == low[i - head.len()]);
            }
        }
        vstd::utf8::is_ascii_chars_encode_utf8(out);
        vstd::utf8::is_ascii_chars_encode_utf8(low);
        let coded = encode_utf8(out);
        let low_coded = encode_utf8(low);
        assert(coded.skip(head.len() as int) =~= low_coded);
        if unreserved(b) {
            assert(coded[0] == b);
            assert(coded.drop_first() =~= low_coded);
            assert(seq![b] + bytes.drop_first() =~= bytes);
        } else {
            let (hi, lo) = ((b / 16) as u8, (b % 16) as u8);
            assert(coded[0] == 37);
            assert(hex_value(coded[1]) == Some(hi));
            assert(hex_value(coded[2]) == Some(lo));
            assert(coded.skip(3) =~= low_coded);
            assert((16 * hi + lo) as u8 == b);
            assert(seq![b] + bytes.drop_first() =~= bytes);
        }
    }
}

/// Whatever a text holds, it survives being escaped, and escaped it is made of ASCII
/// letters, digits, `-`, `_`, `.`, `~` and `%` alone: a slash, an ampersand, an equals
/// sign, a plus or a space in it can never be taken for part of the query.
pub proof fn law_escapes_read_back(s: Seq<char>)
    ensures
        component_value(component(s)) == Some(s),
        forall|i: int| 0 <= i < component(s).len() ==> escape_char(#[trigger] component(s)[i]),
        unbroken(component(s)),
{
    lemma_escaped(encode_utf8(s));
    vstd::utf8::encode_utf8_decode_utf8(s);
    vstd::utf8::encode_utf8_valid_utf8(s);
}

proof fn lemma_quiet_bytes_stay(bytes: Seq<u8>)
    requires
        forall|i: int| 0 <= i < bytes.len() ==> #[trigger] bytes[i] != 37,
    ensures
        unescaped(bytes) == Some(bytes),
    decreases bytes.len(),
{
    if bytes.len() == 0 {
        assert(bytes =~= Seq::empty());
    } else {
        let rest = bytes.drop_first();
        assert forall|i: int| 0 <= i < rest.len() implies #[trigger] rest[i] != 37 by {
            assert(rest[i] == bytes[i + 1]);
        }
        lemma_quiet_bytes_stay(rest);
        assert(seq![bytes[0]] + rest =~= bytes);
    }
}

proof fn lemma_quiet_reads_back(s: Seq<char>)
    requires
        quiet(s),
    ensures
        unbroken(s),
        component_value(s) == Some(s),
{
    vstd::utf8::is_ascii_chars_encode_utf8(s);
    let bytes = encode_utf8(s);
    assert forall|i: int| 0 <= i < bytes.len() implies #[trigger] bytes[i] != 37 by {
        assert(bytes[i] == s[i] as u8);
        assert(s[i] != '%' && s[i] <= '\u{7f}');
    }
    lemma_quiet_bytes_stay(bytes);
    vstd::utf8::encode_utf8_decode_utf8(s);
    vstd::utf8::encode_utf8_valid_utf8(s);
}

proof fn lemma_joined_from_front(params: Seq<Seq<char>>)
    requires
        params.len() > 1,
    ensures
        joined(params) == params[0] + "&"@ + joined(params.drop_first()),
    decreases params.len(),
{
    let rest = params.drop_first();
    if params.len() == 2 {
        assert(params.drop_last() =~= seq![params[0]]);
        assert(joined(params.drop_last()) == params[0]);
        assert(joined(rest) == params[1]);
    } else {
        lemma_joined_from_front(params.drop_last());
        assert(params.drop_last().drop_first() =~= rest.drop_last());
        assert(rest.last() == params.last());
        assert(joined(params) =~= params[0] + "&"@ + joined(rest));
    }
}

proof fn lemma_pieces_of_joined(params: Seq<Seq<char>>)
    requires
        params.len() > 0,
        forall|i: int, j: int|
            0 <= i < params.len() && 0 <= j < params[i].len() ==> #[trigger] params[i][j] != '&',
    ensures
        pieces(joined(params)) == params,
    decreases params.len(),
{
    reveal_strlit("&");
    let q = joined(params);
    if params.len() == 1 {
        text::lemma_position_is(q, '&', q.len() as int);
        assert(pieces(q) =~= params);
    } else {
        let rest = params.drop_first();
        lemma_joined_from_front(params);
        let n = params[0].len() as int;
        assert forall|j: int| 0 <= j < n implies q[j] != '&' by {
            assert(q[j] == params[0][j]);
        }
        assert(q[n] == '&');
        text::lemma_position_is(q, '&', n);
        assert(q.take(n) =~= params[0]);
        assert(q.skip(n + 1) =~= joined(rest));
        assert forall|i: int, j: int| 0 <= i < rest.len() && 0 <= j < rest[i].len() implies
            #[trigger] rest[i][j] != '&' by {
            assert(rest[i] == params[i + 1]);
        }
        lemma_pieces_of_joined(rest);
        assert(seq![params[0]] + rest =~= params);
    }
}

/// Whether a key has no `=` and no `&`.
spec fn plain_key(key: Seq<char>) -> bool {
    &&& key.len() > 0
    &&& forall|i: int| 0 <= i < key.len() ==> #[trigger] key[i] != '=' && key[i] != '&'
}

proof fn lemma_read_parameter(st: Reading, key: Seq<char>, raw: Seq<char>, value: Seq<char>)
    requires
        plain_key(key),
        unbroken(raw),
        component_value(raw) == Some(value),
        !st.seen.contains(key),
    ensures
        read_pair(st, parameter(key, raw)) == read_value(
            Reading { seen: st.seen.push(key), ..st },
            key,
            value,
        ),
        forall|j: int|
            0 <= j < parameter(key, raw).len() ==> #[trigger] parameter(key, raw)[j] != '&',
{
    reveal_strlit("=");
    let pair = parameter(key, raw);
    let n = key.len() as int;
    assert forall|j: int| 0 <= j < n implies pair[j] != '=' by {
        assert(pair[j] == key[j]);
    }
    assert(pair[n] == '=');
    text::lemma_position_is(pair, '=', n);
    assert(pair.take(n) =~= key);
    assert(pair.skip(n + 1) =~= raw);
    assert forall|j: int| 0 <= j < pair.len() implies #[trigger] pair[j] != '&' by {
        if j < n {
            assert(pair[j] == key[j]);
        } else if j > n {
            assert(pair[j] == raw[j - n - 1]);
        }
    }
}

proof fn lemma_read_concat(st: Reading, a: Seq<Seq<char>>, b: Seq<Seq<char>>)
    requires
        read_pairs(st, a) is Ok,
    ensures
        read_pairs(st, a + b) == read_pairs(read_pairs(st, a)->Ok_0, b),
    decreases a.len(),
{
    if a.len() == 0 {
        assert(a + b =~= b);
    } else {
        assert((a + b)[0] == a[0]);
        assert((a + b).drop_first() =~= a.drop_first() + b);
        lemma_read_concat(read_pair(st, a[0])->Ok_0, a.drop_first(), b);
    }
}

proof fn lemma_read_one(st: Reading, pair: Seq<char>)
    ensures
        read_pairs(st, seq![pair]) == read_pair(st, pair),
{
    let s = seq![pair];
    assert(s[0] == pair);
    assert(s.drop_first() =~= Seq::empty());
    match read_pair(st, pair) {
        Ok(next) => {
            assert(read_pairs(next, s.drop_first()) == Ok::<Reading, RequestFault>(next));
        },
        Err(_) => {},
    }
}

/// One more parameter, or none, at the end of a query that has been read.
proof fn lemma_read_optional(
    params: Seq<Seq<char>>,
    st: Reading,
    key: Seq<char>,
    raw: Option<Seq<char>>,
    value: Seq<char>,
)
    requires
        params.len() > 0,
        read_pairs(nothing_read(), params) == Ok::<Reading, RequestFault>(st),
        no_ampersands(params),
        plain_key(key),
        !st.seen.contains(key),
        raw matches Some(r) ==> unbroken(r) && component_value(r) == Some(value),
    ensures
        ({
            let more = params + optional_parameter(key, raw);
            &&& more.len() > 0
            &&& no_ampersands(more)
            &&& read_pairs(nothing_read(), more) == (if raw is Some {
                read_value(Reading { seen: st.seen.push(key), ..st }, key, value)
            } else {
                Ok::<Reading, RequestFault>(st)
            })
        }),
{
    let extra = optional_parameter(key, raw);
    let more = params + extra;
    match raw {
        Some(r) => {
            lemma_read_parameter(st, key, r, value);
            lemma_read_concat(nothing_read(), params, extra);
            lemma_read_one(st, parameter(key, r));
            assert forall|i: int, j: int| 0 <= i < more.len() && 0 <= j < more[i].len() implies
                #[trigger] more[i][j] != '&' by {
                if i < params.len() {
                    assert(more[i] == params[i]);
                } else {
                    assert(more[i] == parameter(key, r));
                }
            }
        },
        None => {
            assert(more =~= params);
        },
    }
}

/// Whether no parameter contains an ampersand.
spec fn no_ampersands(params: Seq<Seq<char>>) -> bool {
    forall|i: int, j: int|
        0 <= i < params.len() && 0 <= j < params[i].len() ==> #[trigger] params[i][j] != '&'
}

proof fn lemma_digits_are_quiet(s: Seq<char>)
    requires
        forall|i: int| 0 <= i < s.len() ==> text::is_digit(#[trigger] s[i]) || s[i] == '.',
    ensures
        quiet(s),
{
}

proof fn lemma_parameters_read_back(v: RequestView)
    requires
        valid_denom(v.denom),
        v.texts_fit(),
    ensures
        no_ampersands(v.parameters()),
        v.parameters().len() > 0,
        read_pairs(nothing_read(), v.parameters()) matches Ok(st) && st.denom == Some(v.denom)
            && st.amount == v.amount && st.reference == v.reference && st.label == v.label
            && st.note == v.note,
{
    reveal_strlit("denom");
    reveal_strlit("amount");
    reveal_strlit("ref");
    reveal_strlit("label");
    reveal_strlit("note");
    let (kd, ka, kr, kl, kn) = ("denom"@, "amount"@, "ref"@, "label"@, "note"@);
    assert(kd.len() == 5 && ka.len() == 6 && kr.len() == 3 && kl.len() == 5 && kn.len() == 4);
    assert(kd[0] == 'd' && kl[0] == 'l');
    assert(plain_key(kd) && plain_key(ka) && plain_key(kr) && plain_key(kl) && plain_key(kn));
    // The denomination.
    let p1 = seq![parameter(kd, component(v.denom))];
    law_escapes_read_back(v.denom);
    lemma_read_parameter(nothing_read(), kd, component(v.denom), v.denom);
    lemma_read_one(nothing_read(), p1[0]);
    let s1 = read_pairs(nothing_read(), p1)->Ok_0;
    assert(s1.seen =~= seq![kd]);
    // The amount.
    let ra = match v.amount {
        Some(a) => Some(amount_text(a.0 as nat)),
        None => None,
    };
    if let Some(a) = v.amount {
        crate::primitives::amount::lemma_amount_text_is_digits(a.0 as nat);
        lemma_digits_are_quiet(amount_text(a.0 as nat));
        lemma_quiet_reads_back(amount_text(a.0 as nat));
        law_amount_text_reads_back(a.0 as nat);
    }
    lemma_read_optional(p1, s1, ka, ra, ra->0);
    let p2 = p1 + optional_parameter(ka, ra);
    let s2 = read_pairs(nothing_read(), p2)->Ok_0;
    assert(s2.seen =~= if ra is Some { seq![kd, ka] } else { seq![kd] });
    // The reference.
    let rr = match v.reference {
        Some(r) => Some(text::decimal(r.0 as nat)),
        None => None,
    };
    if let Some(r) = v.reference {
        text::lemma_decimal_reads_back(r.0 as nat);
        lemma_digits_are_quiet(text::decimal(r.0 as nat));
        lemma_quiet_reads_back(text::decimal(r.0 as nat));
        law_reference_reads_back(r);
    }
    assert(!s2.seen.contains(kr));
    lemma_read_optional(p2, s2, kr, rr, rr->0);
    let p3 = p2 + optional_parameter(kr, rr);
    let s3 = read_pairs(nothing_read(), p3)->Ok_0;
    assert(s3.seen == if rr is Some { s2.seen.push(kr) } else { s2.seen });
    assert forall|k: Seq<char>| #[trigger] s3.seen.contains(k) implies k == kd || k == ka || k
        == kr by {
        let i = choose|i: int| 0 <= i < s3.seen.len() && s3.seen[i] == k;
    }
    // The label.
    let rl = match v.label {
        Some(l) => Some(component(l)),
        None => None,
    };
    if let Some(l) = v.label {
        law_escapes_read_back(l);
    }
    assert(!s3.seen.contains(kl));
    lemma_read_optional(p3, s3, kl, rl, v.label->0);
    let p4 = p3 + optional_parameter(kl, rl);
    let s4 = read_pairs(nothing_read(), p4)->Ok_0;
    assert(s4.seen == if rl is Some { s3.seen.push(kl) } else { s3.seen });
    assert forall|k: Seq<char>| #[trigger] s4.seen.contains(k) implies k == kd || k == ka || k == kr
        || k == kl by {
        let i = choose|i: int| 0 <= i < s4.seen.len() && s4.seen[i] == k;
        if i < s3.seen.len() {
            assert(s3.seen.contains(s3.seen[i]));
        }
    }
    // The note.
    let rn = match v.note {
        Some(n) => Some(component(n)),
        None => None,
    };
    if let Some(n) = v.note {
        law_escapes_read_back(n);
    }
    assert(!s4.seen.contains(kn));
    lemma_read_optional(p4, s4, kn, rn, v.note->0);
    assert(p4 + optional_parameter(kn, rn) == v.parameters());
}

/// A request's URI reads back as the request, once its payee does.
proof fn lemma_uri_reads_back(v: RequestView)
    requires
        valid_denom(v.denom),
        v.texts_fit(),
        payee_in(v.payee.text()) == Some(v.payee),
        forall|i: int| 0 <= i < v.payee.text().len() ==> #[trigger] v.payee.text()[i] != '?',
    ensures
        request_in(v.uri()) == Ok::<RequestView, RequestFault>(v),
{
    reveal_strlit("afri");
    reveal_strlit(":");
    reveal_strlit("?");
    let payee = v.payee.text();
    let query = joined(v.parameters());
    let uri = v.uri();
    let scheme = SCHEME@ + ":"@;
    assert(scheme.len() == 5);
    assert(uri.take(5) =~= scheme);
    assert(scheme.is_prefix_of(uri)) by {
        assert(scheme =~= uri.subrange(0, 5));
    }
    let rest = uri.skip(5);
    assert(rest =~= payee + "?"@ + query);
    let n = payee.len() as int;
    assert forall|j: int| 0 <= j < n implies rest[j] != '?' by {
        assert(rest[j] == payee[j]);
    }
    assert(rest[n] == '?');
    text::lemma_position_is(rest, '?', n);
    assert(rest.take(n) =~= payee);
    assert(rest.skip(n + 1) =~= query);
    lemma_parameters_read_back(v);
    lemma_pieces_of_joined(v.parameters());
}

} // verus!
