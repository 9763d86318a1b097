//! What a query says, whatever the order of its parameters.
//!
//! The laws here speak of parameters as they are written, a key, an equals sign and a
//! value, and of what a request that was read holds for each of them.

use crate::alias::valid_username;
use crate::crypto::address::address_named;
use crate::pay::reference::reference_in;
use crate::pay::request::{
    amount_in, component, component_value, escaped, joined, nothing_read, parsed_request, payee_in,
    pieces, read_pair, read_pairs, read_value, request_in, request_of, unescaped, PayeeView,
    PaymentRequest, Reading, RequestError, RequestFault, RequestView,
};
use crate::primitives::amount::{amount_text, decimal_units};
use crate::primitives::denom::valid_denom;
use crate::primitives::text;
use vstd::prelude::*;
use vstd::utf8::{decode_utf8, encode_utf8, valid_utf8};

verus! {

/// The key of a parameter.
spec fn key_of(pair: Seq<char>) -> Seq<char> {
    pair.take(text::position(pair, '=') as int)
}

/// The value of a parameter, as it is written.
spec fn raw_of(pair: Seq<char>) -> Seq<char> {
    pair.skip(text::position(pair, '=') as int + 1)
}

/// Whether a parameter has a key and a value.
spec fn parted(pair: Seq<char>) -> bool {
    text::position(pair, '=') < pair.len()
}

/// Whether a parameter has this key.
spec fn keyed(pair: Seq<char>, key: Seq<char>) -> bool {
    parted(pair) && key_of(pair) == key
}

/// Whether a value is one that a key takes.
spec fn fits(key: Seq<char>, value: Seq<char>) -> bool {
    &&& key == "denom"@ ==> valid_denom(value)
    &&& key == "amount"@ ==> amount_in(value) is Some
    &&& key == "ref"@ ==> reference_in(value) is Some
    &&& key == "label"@ || key == "note"@ ==> encode_utf8(value).len() <= 128
}

/// Whether a parameter can be read when its key is new.
spec fn good(pair: Seq<char>) -> bool {
    pair.len() > 0 ==> {
        &&& parted(pair)
        &&& component_value(raw_of(pair)) is Some
        &&& fits(key_of(pair), component_value(raw_of(pair))->0)
    }
}

spec fn all_good(pairs: Seq<Seq<char>>) -> bool {
    forall|i: int| 0 <= i < pairs.len() ==> good(#[trigger] pairs[i])
}

spec fn apart(pairs: Seq<Seq<char>>) -> bool {
    forall|i: int, j: int|
        0 <= i < j < pairs.len() && pairs[i].len() > 0 && pairs[j].len() > 0 ==> key_of(
            #[trigger] pairs[i],
        ) != key_of(#[trigger] pairs[j])
}

spec fn unseen(seen: Seq<Seq<char>>, pairs: Seq<Seq<char>>) -> bool {
    forall|i: int|
        0 <= i < pairs.len() && (#[trigger] pairs[i]).len() > 0 ==> !seen.contains(
            key_of(pairs[i]),
        )
}

proof fn lemma_keys_differ()
    ensures
        "denom"@ != "amount"@,
        "denom"@ != "ref"@,
        "denom"@ != "label"@,
        "denom"@ != "note"@,
        "amount"@ != "ref"@,
        "amount"@ != "label"@,
        "amount"@ != "note"@,
        "ref"@ != "label"@,
        "ref"@ != "note"@,
        "label"@ != "note"@,
        !"denom"@.contains('='),
        !"amount"@.contains('='),
        !"ref"@.contains('='),
        !"label"@.contains('='),
        !"note"@.contains('='),
{
    reveal_strlit("denom");
    reveal_strlit("amount");
    reveal_strlit("ref");
    reveal_strlit("label");
    reveal_strlit("note");
    assert("denom"@[0] == 'd' && "label"@[0] == 'l');
    assert("amount"@.len() == 6 && "ref"@.len() == 3 && "note"@.len() == 4);
}

/// A parameter written out has the key and the value that it was written with.
proof fn lemma_written(key: Seq<char>, raw: Seq<char>)
    requires
        !key.contains('='),
    ensures
        keyed(key + "="@ + raw, key),
        raw_of(key + "="@ + raw) == raw,
        (key + "="@ + raw).len() > 0,
{
    reveal_strlit("=");
    let pair = key + "="@ + raw;
    let n = key.len() as int;
    assert forall|j: int| 0 <= j < n implies pair[j] != '=' by {
        assert(pair[j] == key[j]);
        assert(key.contains(key[j]));
    }
    assert(pair[n] == '=');
    text::lemma_position_is(pair, '=', n);
    assert(pair.take(n) =~= key);
    assert(pair.skip(n + 1) =~= raw);
}

/// A parameter with an equals sign in it is a key, the sign and a value.
proof fn lemma_parted(pair: Seq<char>)
    requires
        parted(pair),
    ensures
        pair == key_of(pair) + "="@ + raw_of(pair),
        !key_of(pair).contains('='),
        pair.contains('='),
{
    reveal_strlit("=");
    text::lemma_position(pair, '=');
    let p = text::position(pair, '=') as int;
    assert(pair[p] == '=');
    assert(pair =~= key_of(pair) + "="@ + raw_of(pair));
    if key_of(pair).contains('=') {
        let j = choose|j: int| 0 <= j < key_of(pair).len() && key_of(pair)[j] == '=';
        assert(pair[j] == '=');
    }
}

proof fn lemma_not_parted(pair: Seq<char>)
    requires
        !parted(pair),
    ensures
        !pair.contains('='),
{
    text::lemma_position(pair, '=');
}

/// Parameters are read if each can be and no key comes twice.
proof fn lemma_when_read(st: Reading, pairs: Seq<Seq<char>>)
    ensures
        read_pairs(st, pairs) is Ok <==> all_good(pairs) && apart(pairs) && unseen(st.seen, pairs),
    decreases pairs.len(),
{
    if pairs.len() > 0 {
        let (head, rest) = (pairs[0], pairs.drop_first());
        lemma_keys_differ();
        assert forall|i: int| 0 <= i < rest.len() implies #[trigger] rest[i] == pairs[i + 1] by {}
        let ok = all_good(pairs) && apart(pairs) && unseen(st.seen, pairs);
        if read_pair(st, head) is Ok {
            let next = read_pair(st, head)->Ok_0;
            lemma_when_read(next, rest);
            assert(good(head));
            if head.len() > 0 {
                assert(next.seen == st.seen.push(key_of(head)));
                assert forall|k: Seq<char>| #[trigger] next.seen.contains(k) <==> (
                st.seen.contains(k) || k == key_of(head)) by {
                    if st.seen.contains(k) {
                        let j = choose|j: int| 0 <= j < st.seen.len() && st.seen[j] == k;
                        assert(next.seen[j] == k);
                    }
                    if k == key_of(head) {
                        assert(next.seen[st.seen.len() as int] == k);
                    }
                }
            } else {
                assert(next == st);
            }
            if ok {
                assert forall|i: int| 0 <= i < rest.len() implies good(#[trigger] rest[i]) by {
                    assert(good(pairs[i + 1]));
                }
                assert forall|i: int, j: int|
                    0 <= i < j < rest.len() && rest[i].len() > 0 && rest[j].len()
                        > 0 implies key_of(#[trigger] rest[i]) != key_of(#[trigger] rest[j]) by {
                    assert(key_of(pairs[i + 1]) != key_of(pairs[j + 1]));
                }
                assert forall|i: int|
                    0 <= i < rest.len() && (#[trigger] rest[i]).len()
                        > 0 implies !next.seen.contains(key_of(rest[i])) by {
                    assert(!st.seen.contains(key_of(pairs[i + 1])));
                    if head.len() > 0 {
                        assert(key_of(pairs[0]) != key_of(pairs[i + 1]));
                    }
                }
            }
            if read_pairs(next, rest) is Ok {
                assert forall|i: int| 0 <= i < pairs.len() implies good(#[trigger] pairs[i]) by {
                    if i > 0 {
                        assert(good(rest[i - 1]));
                    }
                }
                assert forall|i: int, j: int|
                    0 <= i < j < pairs.len() && pairs[i].len() > 0 && pairs[j].len()
                        > 0 implies key_of(#[trigger] pairs[i]) != key_of(#[trigger] pairs[j]) by {
                    assert(pairs[j] == rest[j - 1]);
                    if i > 0 {
                        assert(pairs[i] == rest[i - 1]);
                    } else {
                        assert(!next.seen.contains(key_of(rest[j - 1])));
                    }
                }
                assert forall|i: int|
                    0 <= i < pairs.len() && (#[trigger] pairs[i]).len()
                        > 0 implies !st.seen.contains(key_of(pairs[i])) by {
                    if i > 0 {
                        assert(!next.seen.contains(key_of(rest[i - 1])));
                    }
                }
            }
        } else {
            if ok {
                assert(good(pairs[0]));
                assert(!st.seen.contains(key_of(pairs[0])));
            }
        }
    }
}

/// What is read for the key `denom`: its value where it is there, and nothing otherwise.
proof fn lemma_read_denom(st: Reading, pairs: Seq<Seq<char>>)
    requires
        read_pairs(st, pairs) is Ok,
    ensures
        (forall|i: int| 0 <= i < pairs.len() ==> !keyed(#[trigger] pairs[i], "denom"@))
            ==> read_pairs(st, pairs)->Ok_0.denom == st.denom,
        forall|i: int|
            0 <= i < pairs.len() && keyed(#[trigger] pairs[i], "denom"@) ==> read_pairs(
                st,
                pairs,
            )->Ok_0.denom == Some(component_value(raw_of(pairs[i]))->0),
    decreases pairs.len(),
{
    if pairs.len() > 0 {
        let (head, rest) = (pairs[0], pairs.drop_first());
        let next = read_pair(st, head)->Ok_0;
        let out = read_pairs(st, pairs)->Ok_0;
        lemma_keys_differ();
        lemma_read_denom(next, rest);
        lemma_when_read(st, pairs);
        assert(good(head));
        assert forall|i: int| 0 <= i < rest.len() implies #[trigger] rest[i] == pairs[i + 1] by {}
        if keyed(head, "denom"@) {
            assert forall|i: int| 0 <= i < rest.len() implies !keyed(
                #[trigger] rest[i],
                "denom"@,
            ) by {
                assert(rest[i] == pairs[i + 1]);
                if keyed(rest[i], "denom"@) {
                    text::lemma_position(pairs[0], '=');
                    assert(key_of(pairs[0]) != key_of(pairs[i + 1]));
                }
            }
            assert(out.denom == next.denom);
        } else {
            assert(next.denom == st.denom);
        }
        assert forall|i: int| 0 <= i < pairs.len() && keyed(#[trigger] pairs[i], "denom"@) implies
            out.denom == Some(component_value(raw_of(pairs[i]))->0) by {
            if i > 0 {
                assert(pairs[i] == rest[i - 1]);
            }
        }
        if forall|i: int| 0 <= i < pairs.len() ==> !keyed(#[trigger] pairs[i], "denom"@) {
            assert forall|i: int| 0 <= i < rest.len() implies !keyed(
                #[trigger] rest[i],
                "denom"@,
            ) by {
                assert(rest[i] == pairs[i + 1]);
            }
            assert(!keyed(pairs[0], "denom"@));
        }
    }
}

/// What is read for the key `amount`: its value where it is there, and nothing otherwise.
proof fn lemma_read_amount(st: Reading, pairs: Seq<Seq<char>>)
    requires
        read_pairs(st, pairs) is Ok,
    ensures
        (forall|i: int| 0 <= i < pairs.len() ==> !keyed(#[trigger] pairs[i], "amount"@))
            ==> read_pairs(st, pairs)->Ok_0.amount == st.amount,
        forall|i: int|
            0 <= i < pairs.len() && keyed(#[trigger] pairs[i], "amount"@) ==> read_pairs(
                st,
                pairs,
            )->Ok_0.amount == amount_in(component_value(raw_of(pairs[i]))->0),
    decreases pairs.len(),
{
    if pairs.len() > 0 {
        let (head, rest) = (pairs[0], pairs.drop_first());
        let next = read_pair(st, head)->Ok_0;
        let out = read_pairs(st, pairs)->Ok_0;
        lemma_keys_differ();
        lemma_read_amount(next, rest);
        lemma_when_read(st, pairs);
        assert(good(head));
        assert forall|i: int| 0 <= i < rest.len() implies #[trigger] rest[i] == pairs[i + 1] by {}
        if keyed(head, "amount"@) {
            assert forall|i: int| 0 <= i < rest.len() implies !keyed(
                #[trigger] rest[i],
                "amount"@,
            ) by {
                assert(rest[i] == pairs[i + 1]);
                if keyed(rest[i], "amount"@) {
                    text::lemma_position(pairs[0], '=');
                    assert(key_of(pairs[0]) != key_of(pairs[i + 1]));
                }
            }
            assert(out.amount == next.amount);
        } else {
            assert(next.amount == st.amount);
        }
        assert forall|i: int| 0 <= i < pairs.len() && keyed(#[trigger] pairs[i], "amount"@) implies
            out.amount == amount_in(component_value(raw_of(pairs[i]))->0) by {
            if i > 0 {
                assert(pairs[i] == rest[i - 1]);
            }
        }
        if forall|i: int| 0 <= i < pairs.len() ==> !keyed(#[trigger] pairs[i], "amount"@) {
            assert forall|i: int| 0 <= i < rest.len() implies !keyed(
                #[trigger] rest[i],
                "amount"@,
            ) by {
                assert(rest[i] == pairs[i + 1]);
            }
            assert(!keyed(pairs[0], "amount"@));
        }
    }
}

/// What is read for the key `ref`: its value where it is there, and nothing otherwise.
proof fn lemma_read_reference(st: Reading, pairs: Seq<Seq<char>>)
    requires
        read_pairs(st, pairs) is Ok,
    ensures
        (forall|i: int| 0 <= i < pairs.len() ==> !keyed(#[trigger] pairs[i], "ref"@))
            ==> read_pairs(st, pairs)->Ok_0.reference == st.reference,
        forall|i: int|
            0 <= i < pairs.len() && keyed(#[trigger] pairs[i], "ref"@) ==> read_pairs(
                st,
                pairs,
            )->Ok_0.reference == reference_in(component_value(raw_of(pairs[i]))->0),
    decreases pairs.len(),
{
    if pairs.len() > 0 {
        let (head, rest) = (pairs[0], pairs.drop_first());
        let next = read_pair(st, head)->Ok_0;
        let out = read_pairs(st, pairs)->Ok_0;
        lemma_keys_differ();
        lemma_read_reference(next, rest);
        lemma_when_read(st, pairs);
        assert(good(head));
        assert forall|i: int| 0 <= i < rest.len() implies #[trigger] rest[i] == pairs[i + 1] by {}
        if keyed(head, "ref"@) {
            assert forall|i: int| 0 <= i < rest.len() implies !keyed(
                #[trigger] rest[i],
                "ref"@,
            ) by {
                assert(rest[i] == pairs[i + 1]);
                if keyed(rest[i], "ref"@) {
                    text::lemma_position(pairs[0], '=');
                    assert(key_of(pairs[0]) != key_of(pairs[i + 1]));
                }
            }
            assert(out.reference == next.reference);
        } else {
            assert(next.reference == st.reference);
        }
        assert forall|i: int| 0 <= i < pairs.len() && keyed(#[trigger] pairs[i], "ref"@) implies
            out.reference == reference_in(component_value(raw_of(pairs[i]))->0) by {
            if i > 0 {
                assert(pairs[i] == rest[i - 1]);
            }
        }
        if forall|i: int| 0 <= i < pairs.len() ==> !keyed(#[trigger] pairs[i], "ref"@) {
            assert forall|i: int| 0 <= i < rest.len() implies !keyed(
                #[trigger] rest[i],
                "ref"@,
            ) by {
                assert(rest[i] == pairs[i + 1]);
            }
            assert(!keyed(pairs[0], "ref"@));
        }
    }
}

/// What is read for the key `label`: its value where it is there, and nothing otherwise.
proof fn lemma_read_label(st: Reading, pairs: Seq<Seq<char>>)
    requires
        read_pairs(st, pairs) is Ok,
    ensures
        (forall|i: int| 0 <= i < pairs.len() ==> !keyed(#[trigger] pairs[i], "label"@))
            ==> read_pairs(st, pairs)->Ok_0.label == st.label,
        forall|i: int|
            0 <= i < pairs.len() && keyed(#[trigger] pairs[i], "label"@) ==> read_pairs(
                st,
                pairs,
            )->Ok_0.label == component_value(raw_of(pairs[i])),
    decreases pairs.len(),
{
    if pairs.len() > 0 {
        let (head, rest) = (pairs[0], pairs.drop_first());
        let next = read_pair(st, head)->Ok_0;
        let out = read_pairs(st, pairs)->Ok_0;
        lemma_keys_differ();
        lemma_read_label(next, rest);
        lemma_when_read(st, pairs);
        assert(good(head));
        assert forall|i: int| 0 <= i < rest.len() implies #[trigger] rest[i] == pairs[i + 1] by {}
        if keyed(head, "label"@) {
            assert forall|i: int| 0 <= i < rest.len() implies !keyed(
                #[trigger] rest[i],
                "label"@,
            ) by {
                assert(rest[i] == pairs[i + 1]);
                if keyed(rest[i], "label"@) {
                    text::lemma_position(pairs[0], '=');
                    assert(key_of(pairs[0]) != key_of(pairs[i + 1]));
                }
            }
            assert(out.label == next.label);
        } else {
            assert(next.label == st.label);
        }
        assert forall|i: int| 0 <= i < pairs.len() && keyed(#[trigger] pairs[i], "label"@) implies
            out.label == component_value(raw_of(pairs[i])) by {
            if i > 0 {
                assert(pairs[i] == rest[i - 1]);
            }
        }
        if forall|i: int| 0 <= i < pairs.len() ==> !keyed(#[trigger] pairs[i], "label"@) {
            assert forall|i: int| 0 <= i < rest.len() implies !keyed(
                #[trigger] rest[i],
                "label"@,
            ) by {
                assert(rest[i] == pairs[i + 1]);
            }
            assert(!keyed(pairs[0], "label"@));
        }
    }
}

/// What is read for the key `note`: its value where it is there, and nothing otherwise.
proof fn lemma_read_note(st: Reading, pairs: Seq<Seq<char>>)
    requires
        read_pairs(st, pairs) is Ok,
    ensures
        (forall|i: int| 0 <= i < pairs.len() ==> !keyed(#[trigger] pairs[i], "note"@))
            ==> read_pairs(st, pairs)->Ok_0.note == st.note,
        forall|i: int|
            0 <= i < pairs.len() && keyed(#[trigger] pairs[i], "note"@) ==> read_pairs(
                st,
                pairs,
            )->Ok_0.note == component_value(raw_of(pairs[i])),
    decreases pairs.len(),
{
    if pairs.len() > 0 {
        let (head, rest) = (pairs[0], pairs.drop_first());
        let next = read_pair(st, head)->Ok_0;
        let out = read_pairs(st, pairs)->Ok_0;
        lemma_keys_differ();
        lemma_read_note(next, rest);
        lemma_when_read(st, pairs);
        assert(good(head));
        assert forall|i: int| 0 <= i < rest.len() implies #[trigger] rest[i] == pairs[i + 1] by {}
        if keyed(head, "note"@) {
            assert forall|i: int| 0 <= i < rest.len() implies !keyed(
                #[trigger] rest[i],
                "note"@,
            ) by {
                assert(rest[i] == pairs[i + 1]);
                if keyed(rest[i], "note"@) {
                    text::lemma_position(pairs[0], '=');
                    assert(key_of(pairs[0]) != key_of(pairs[i + 1]));
                }
            }
            assert(out.note == next.note);
        } else {
            assert(next.note == st.note);
        }
        assert forall|i: int| 0 <= i < pairs.len() && keyed(#[trigger] pairs[i], "note"@) implies
            out.note == component_value(raw_of(pairs[i])) by {
            if i > 0 {
                assert(pairs[i] == rest[i - 1]);
            }
        }
        if forall|i: int| 0 <= i < pairs.len() ==> !keyed(#[trigger] pairs[i], "note"@) {
            assert forall|i: int| 0 <= i < rest.len() implies !keyed(
                #[trigger] rest[i],
                "note"@,
            ) by {
                assert(rest[i] == pairs[i + 1]);
            }
            assert(!keyed(pairs[0], "note"@));
        }
    }
}

/// A parameter sets the field of its own key, to the value it gives, and leaves the
/// fields of every other key as they were.
pub proof fn law_a_parameter_sets_its_own_field(st: Reading, key: Seq<char>, value: Seq<char>)
    ensures
        read_value(st, key, value) is Ok <==> {
            &&& key == "denom"@ ==> valid_denom(value)
            &&& key == "amount"@ ==> amount_in(value) is Some
            &&& key == "ref"@ ==> reference_in(value) is Some
            &&& key == "label"@ || key == "note"@ ==> encode_utf8(value).len() <= 128
        },
        read_value(st, key, value) matches Ok(after) ==> {
            &&& after.seen == st.seen
            &&& after.denom == if key == "denom"@ {
                Some(value)
            } else {
                st.denom
            }
            &&& after.amount == if key == "amount"@ {
                amount_in(value)
            } else {
                st.amount
            }
            &&& after.reference == if key == "ref"@ {
                reference_in(value)
            } else {
                st.reference
            }
            &&& after.label == if key == "label"@ {
                Some(value)
            } else {
                st.label
            }
            &&& after.note == if key == "note"@ {
                Some(value)
            } else {
                st.note
            }
        },
        read_value(st, key, value) matches Err(fault) ==> fault == if key == "denom"@ {
            RequestFault::BadDenom
        } else if key == "amount"@ {
            RequestFault::BadAmount
        } else if key == "ref"@ {
            RequestFault::BadParameter("ref"@)
        } else {
            RequestFault::TextTooLong
        },
{
    lemma_keys_differ();
}

/// One parameter of a query. An empty one says nothing. One without an equals sign is
/// named whole in the refusal; one whose key has come before, or whose value does not
/// decode, is named by its key. Any other counts as read, and its decoded value is
/// kept under its key.
pub proof fn law_how_a_parameter_is_read(st: Reading, key: Seq<char>, raw: Seq<char>)
    requires
        !key.contains('='),
    ensures
        read_pair(st, Seq::empty()) == Ok::<Reading, RequestFault>(st),
        key.len() > 0 ==> read_pair(st, key) == Err::<Reading, RequestFault>(
            RequestFault::BadParameter(key),
        ),
        read_pair(st, key + "="@ + raw) == if st.seen.contains(key) {
            Err::<Reading, RequestFault>(RequestFault::DuplicateParameter(key))
        } else if component_value(raw) is None {
            Err(RequestFault::BadParameter(key))
        } else {
            read_value(
                Reading { seen: st.seen.push(key), ..st },
                key,
                component_value(raw)->0,
            )
        },
{
    lemma_written(key, raw);
    text::lemma_position(key, '=');
    if parted(key) {
        lemma_parted(key);
    }
}

/// Parameters are read from the front, and the first that is refused is what the
/// refusal speaks of.
pub proof fn law_the_first_bad_parameter_is_named(
    st: Reading,
    head: Seq<char>,
    rest: Seq<Seq<char>>,
)
    ensures
        read_pairs(st, Seq::empty()) == Ok::<Reading, RequestFault>(st),
        read_pairs(st, seq![head] + rest) == match read_pair(st, head) {
            Ok(next) => read_pairs(next, rest),
            Err(fault) => Err(fault),
        },
{
    let all = seq![head] + rest;
    assert(all[0] == head);
    assert(all.drop_first() =~= rest);
}

/// A query's pieces are what stands between its ampersands.
pub proof fn law_ampersands_part_a_query(head: Seq<char>, rest: Seq<char>)
    requires
        !head.contains('&'),
    ensures
        pieces(head) == seq![head],
        pieces(head + "&"@ + rest) == seq![head] + pieces(rest),
{
    reveal_strlit("&");
    let whole = head + "&"@ + rest;
    let n = head.len() as int;
    assert forall|j: int| 0 <= j < n implies head[j] != '&' by {
        assert(head.contains(head[j]));
    }
    text::lemma_position_is(head, '&', n);
    assert forall|j: int| 0 <= j < n implies whole[j] != '&' by {
        assert(whole[j] == head[j]);
    }
    assert(whole[n] == '&');
    text::lemma_position_is(whole, '&', n);
    assert(whole.take(n) =~= head);
    assert(whole.skip(n + 1) =~= rest);
}

/// When a query is read: the payee is one, every parameter that says anything has an
/// equals sign and a value that decodes and suits its key, no key comes twice, and the
/// denomination is among the keys.
pub proof fn law_when_a_query_is_read(payee: Seq<char>, query: Seq<char>)
    ensures
        request_of(payee, query) is Ok <==> {
            &&& payee_in(payee) is Some
            &&& forall|i: int|
                0 <= i < pieces(query).len() && (#[trigger] pieces(query)[i]).len() > 0
                    ==> pieces(query)[i].contains('=')
            &&& forall|i: int, key: Seq<char>, raw: Seq<char>|
                0 <= i < pieces(query).len() && #[trigger] pieces(query)[i] == #[trigger] (key
                    + "="@ + raw) && !key.contains('=') ==> {
                    &&& component_value(raw) is Some
                    &&& key == "denom"@ ==> valid_denom(component_value(raw)->0)
                    &&& key == "amount"@ ==> amount_in(component_value(raw)->0) is Some
                    &&& key == "ref"@ ==> reference_in(component_value(raw)->0) is Some
                    &&& key == "label"@ || key == "note"@ ==> encode_utf8(
                        component_value(raw)->0,
                    ).len() <= 128
                }
            &&& forall|i: int, j: int, key: Seq<char>, a: Seq<char>, b: Seq<char>|
                0 <= i < j < pieces(query).len() && #[trigger] pieces(query)[i] == #[trigger] (key
                    + "="@ + a) && #[trigger] pieces(query)[j] == #[trigger] (key + "="@ + b)
                    ==> key.contains('=')
            &&& exists|raw: Seq<char>| pieces(query).contains(#[trigger] ("denom"@ + "="@ + raw))
        },
{
    let all = pieces(query);
    lemma_keys_differ();
    lemma_when_read(nothing_read(), all);
    let each = forall|i: int|
        0 <= i < all.len() && (#[trigger] all[i]).len() > 0 ==> all[i].contains('=');
    let suited = forall|i: int, key: Seq<char>, raw: Seq<char>|
        0 <= i < all.len() && #[trigger] all[i] == #[trigger] (key + "="@ + raw) && !key.contains(
            '=',
        ) ==> {
            &&& component_value(raw) is Some
            &&& fits(key, component_value(raw)->0)
        };
    let once = forall|i: int, j: int, key: Seq<char>, a: Seq<char>, b: Seq<char>|
        0 <= i < j < all.len() && #[trigger] all[i] == #[trigger] (key + "="@ + a)
            && #[trigger] all[j] == #[trigger] (key + "="@ + b) ==> key.contains('=');
    let named = exists|raw: Seq<char>| all.contains(#[trigger] ("denom"@ + "="@ + raw));
    if all_good(all) && apart(all) {
        assert forall|i: int| 0 <= i < all.len() && (#[trigger] all[i]).len() > 0
            implies all[i].contains(
            '=',
        ) by {
            assert(good(all[i]));
            lemma_parted(all[i]);
        }
        assert forall|i: int, key: Seq<char>, raw: Seq<char>|
            0 <= i < all.len() && #[trigger] all[i] == #[trigger] (key + "="@ + raw)
                && !key.contains('=') implies component_value(raw) is Some && fits(
            key,
            component_value(raw)->0,
        ) by {
            lemma_written(key, raw);
            assert(good(all[i]));
        }
        assert forall|i: int, j: int, key: Seq<char>, a: Seq<char>, b: Seq<char>|
            0 <= i < j < all.len() && #[trigger] all[i] == #[trigger] (key + "="@ + a)
                && #[trigger] all[j] == #[trigger] (key + "="@ + b) implies key.contains('=') by {
            if !key.contains('=') {
                lemma_written(key, a);
                lemma_written(key, b);
                assert(key_of(all[i]) != key_of(all[j]));
            }
        }
        assert(each && suited && once);
    }
    if each && suited && once {
        assert forall|i: int| 0 <= i < all.len() implies good(#[trigger] all[i]) by {
            if all[i].len() > 0 {
                assert(all[i].contains('='));
                if !parted(all[i]) {
                    lemma_not_parted(all[i]);
                }
                lemma_parted(all[i]);
                assert(all[i] == key_of(all[i]) + "="@ + raw_of(all[i]));
            }
        }
        assert forall|i: int, j: int|
            0 <= i < j < all.len() && all[i].len() > 0 && all[j].len() > 0 implies key_of(
            #[trigger] all[i],
        ) != key_of(#[trigger] all[j]) by {
            assert(good(all[i]) && good(all[j]));
            lemma_parted(all[i]);
            lemma_parted(all[j]);
            let key = key_of(all[i]);
            if key == key_of(all[j]) {
                assert(all[i] == key + "="@ + raw_of(all[i]));
                assert(all[j] == key + "="@ + raw_of(all[j]));
            }
        }
        assert(all_good(all) && apart(all));
    }
    assert(unseen(nothing_read().seen, all));
    if read_pairs(nothing_read(), all) is Ok {
        lemma_read_denom(nothing_read(), all);
        if named {
            let raw = choose|raw: Seq<char>| all.contains(#[trigger] ("denom"@ + "="@ + raw));
            lemma_written("denom"@, raw);
            let i = choose|i: int| 0 <= i < all.len() && all[i] == "denom"@ + "="@ + raw;
            assert(keyed(all[i], "denom"@));
        } else {
            assert forall|i: int| 0 <= i < all.len()
                implies !keyed(#[trigger] all[i], "denom"@) by {
                if keyed(all[i], "denom"@) {
                    lemma_parted(all[i]);
                    assert(all.contains("denom"@ + "="@ + raw_of(all[i])));
                }
            }
        }
    }
}

/// What a request that was read says: for each key the decoded value of the parameter
/// that has it, and nothing for a key that no parameter has.
pub proof fn law_what_a_query_says(payee: Seq<char>, query: Seq<char>, r: RequestView)
    requires
        request_of(payee, query) == Ok::<RequestView, RequestFault>(r),
    ensures
        payee_in(payee) == Some(r.payee),
        forall|raw: Seq<char>|
            pieces(query).contains(#[trigger] ("denom"@ + "="@ + raw)) ==> Some(r.denom)
                == component_value(raw),
        forall|raw: Seq<char>|
            pieces(query).contains(#[trigger] ("amount"@ + "="@ + raw)) ==> r.amount is Some
                && r.amount
                == amount_in(component_value(raw)->0),
        (forall|raw: Seq<char>| !pieces(query).contains(#[trigger] ("amount"@ + "="@ + raw)))
            ==> r.amount is None,
        forall|raw: Seq<char>|
            pieces(query).contains(#[trigger] ("ref"@ + "="@ + raw)) ==> r.reference is Some
                && r.reference
                == reference_in(component_value(raw)->0),
        (forall|raw: Seq<char>| !pieces(query).contains(#[trigger] ("ref"@ + "="@ + raw)))
            ==> r.reference is None,
        forall|raw: Seq<char>|
            pieces(query).contains(#[trigger] ("label"@ + "="@ + raw)) ==> r.label is Some
                && r.label
                == component_value(raw),
        (forall|raw: Seq<char>| !pieces(query).contains(#[trigger] ("label"@ + "="@ + raw)))
            ==> r.label is None,
        forall|raw: Seq<char>|
            pieces(query).contains(#[trigger] ("note"@ + "="@ + raw)) ==> r.note is Some && r.note
                == component_value(raw),
        (forall|raw: Seq<char>| !pieces(query).contains(#[trigger] ("note"@ + "="@ + raw)))
            ==> r.note is None,
{
    let all = pieces(query);
    let start = nothing_read();
    let st = read_pairs(start, all)->Ok_0;
    lemma_keys_differ();
    lemma_when_read(start, all);
    lemma_read_denom(start, all);
    assert forall|raw: Seq<char>| all.contains(#[trigger] ("denom"@ + "="@ + raw)) implies
        component_value(raw) is Some && st.denom is Some && st.denom
            == Some(component_value(raw)->0) by {
        let i = choose|i: int| 0 <= i < all.len() && all[i] == "denom"@ + "="@ + raw;
        lemma_written("denom"@, raw);
        assert(keyed(all[i], "denom"@));
        assert(good(all[i]));
    }
    lemma_read_amount(start, all);
    assert forall|raw: Seq<char>| all.contains(#[trigger] ("amount"@ + "="@ + raw)) implies
        component_value(raw) is Some && st.amount is Some && st.amount
            == amount_in(component_value(raw)->0) by {
        let i = choose|i: int| 0 <= i < all.len() && all[i] == "amount"@ + "="@ + raw;
        lemma_written("amount"@, raw);
        assert(keyed(all[i], "amount"@));
        assert(good(all[i]));
    }
    if forall|raw: Seq<char>| !all.contains(#[trigger] ("amount"@ + "="@ + raw)) {
        assert forall|i: int| 0 <= i < all.len() implies !keyed(#[trigger] all[i], "amount"@) by {
            if keyed(all[i], "amount"@) {
                lemma_parted(all[i]);
                assert(all.contains("amount"@ + "="@ + raw_of(all[i])));
            }
        }
    }
    lemma_read_reference(start, all);
    assert forall|raw: Seq<char>| all.contains(#[trigger] ("ref"@ + "="@ + raw)) implies
        component_value(raw) is Some && st.reference is Some && st.reference
            == reference_in(component_value(raw)->0) by {
        let i = choose|i: int| 0 <= i < all.len() && all[i] == "ref"@ + "="@ + raw;
        lemma_written("ref"@, raw);
        assert(keyed(all[i], "ref"@));
        assert(good(all[i]));
    }
    if forall|raw: Seq<char>| !all.contains(#[trigger] ("ref"@ + "="@ + raw)) {
        assert forall|i: int| 0 <= i < all.len() implies !keyed(#[trigger] all[i], "ref"@) by {
            if keyed(all[i], "ref"@) {
                lemma_parted(all[i]);
                assert(all.contains("ref"@ + "="@ + raw_of(all[i])));
            }
        }
    }
    lemma_read_label(start, all);
    assert forall|raw: Seq<char>| all.contains(#[trigger] ("label"@ + "="@ + raw)) implies
        component_value(raw) is Some && st.label is Some && st.label == component_value(raw) by {
        let i = choose|i: int| 0 <= i < all.len() && all[i] == "label"@ + "="@ + raw;
        lemma_written("label"@, raw);
        assert(keyed(all[i], "label"@));
        assert(good(all[i]));
    }
    if forall|raw: Seq<char>| !all.contains(#[trigger] ("label"@ + "="@ + raw)) {
        assert forall|i: int| 0 <= i < all.len() implies !keyed(#[trigger] all[i], "label"@) by {
            if keyed(all[i], "label"@) {
                lemma_parted(all[i]);
                assert(all.contains("label"@ + "="@ + raw_of(all[i])));
            }
        }
    }
    lemma_read_note(start, all);
    assert forall|raw: Seq<char>| all.contains(#[trigger] ("note"@ + "="@ + raw)) implies
        component_value(raw) is Some && st.note is Some && st.note == component_value(raw) by {
        let i = choose|i: int| 0 <= i < all.len() && all[i] == "note"@ + "="@ + raw;
        lemma_written("note"@, raw);
        assert(keyed(all[i], "note"@));
        assert(good(all[i]));
    }
    if forall|raw: Seq<char>| !all.contains(#[trigger] ("note"@ + "="@ + raw)) {
        assert forall|i: int| 0 <= i < all.len() implies !keyed(#[trigger] all[i], "note"@) by {
            if keyed(all[i], "note"@) {
                lemma_parted(all[i]);
                assert(all.contains("note"@ + "="@ + raw_of(all[i])));
            }
        }
    }
}

/// The order of a query's parameters means nothing: a query with the same parameters
/// in another order is read too, as the same request.
pub proof fn law_the_order_of_parameters_is_free(
    payee: Seq<char>,
    query: Seq<char>,
    other: Seq<char>,
    order: Seq<int>,
)
    requires
        request_of(payee, query) is Ok,
        order.len() == pieces(query).len(),
        pieces(other).len() == pieces(query).len(),
        order.no_duplicates(),
        forall|i: int|
            0 <= i < order.len() ==> 0 <= #[trigger] order[i] < order.len() && pieces(other)[i]
                == pieces(query)[order[i]],
    ensures
        request_of(payee, other) == request_of(payee, query),
{
    let (a, b) = (pieces(query), pieces(other));
    let start = nothing_read();
    lemma_keys_differ();
    lemma_when_read(start, a);
    lemma_when_read(start, b);
    assert forall|i: int| 0 <= i < b.len() implies good(#[trigger] b[i]) by {
        assert(b[i] == a[order[i]]);
        assert(good(a[order[i]]));
    }
    assert forall|i: int, j: int|
        0 <= i < j < b.len() && b[i].len() > 0 && b[j].len() > 0 implies key_of(#[trigger] b[i])
        != key_of(#[trigger] b[j]) by {
        assert(b[i] == a[order[i]] && b[j] == a[order[j]]);
        assert(order[i] != order[j]);
        if order[i] < order[j] {
            assert(key_of(a[order[i]]) != key_of(a[order[j]]));
        } else {
            assert(key_of(a[order[j]]) != key_of(a[order[i]]));
        }
    }
    assert(read_pairs(start, b) is Ok);
    let n = order.len() as int;
    vstd::set_lib::lemma_int_range(0, n);
    order.unique_seq_to_set();
    assert(order.to_set().subset_of(vstd::set_lib::set_int_range(0, n)));
    vstd::set_lib::lemma_subset_equality(order.to_set(), vstd::set_lib::set_int_range(0, n));
    assert forall|j: int| 0 <= j < a.len() implies b.contains(#[trigger] a[j]) by {
        assert(order.to_set().contains(j));
        let i = choose|i: int| 0 <= i < order.len() && order[i] == j;
        assert(b[i] == a[order[i]]);
    }
    lemma_read_denom(start, a);
    lemma_read_denom(start, b);
    assert(read_pairs(start, a)->Ok_0.denom == read_pairs(start, b)->Ok_0.denom) by {
        if exists|i: int| 0 <= i < a.len() && keyed(#[trigger] a[i], "denom"@) {
            let j = choose|j: int| 0 <= j < a.len() && keyed(#[trigger] a[j], "denom"@);
            assert(b.contains(a[j]));
            let i = choose|i: int| 0 <= i < b.len() && b[i] == a[j];
            assert(keyed(b[i], "denom"@));
        } else {
            assert forall|i: int| 0 <= i < b.len() implies !keyed(#[trigger] b[i], "denom"@) by {
                assert(b[i] == a[order[i]]);
                assert(!keyed(a[order[i]], "denom"@));
            }
        }
    }
    lemma_read_amount(start, a);
    lemma_read_amount(start, b);
    assert(read_pairs(start, a)->Ok_0.amount == read_pairs(start, b)->Ok_0.amount) by {
        if exists|i: int| 0 <= i < a.len() && keyed(#[trigger] a[i], "amount"@) {
            let j = choose|j: int| 0 <= j < a.len() && keyed(#[trigger] a[j], "amount"@);
            assert(b.contains(a[j]));
            let i = choose|i: int| 0 <= i < b.len() && b[i] == a[j];
            assert(keyed(b[i], "amount"@));
        } else {
            assert forall|i: int| 0 <= i < b.len() implies !keyed(#[trigger] b[i], "amount"@) by {
                assert(b[i] == a[order[i]]);
                assert(!keyed(a[order[i]], "amount"@));
            }
        }
    }
    lemma_read_reference(start, a);
    lemma_read_reference(start, b);
    assert(read_pairs(start, a)->Ok_0.reference == read_pairs(start, b)->Ok_0.reference) by {
        if exists|i: int| 0 <= i < a.len() && keyed(#[trigger] a[i], "ref"@) {
            let j = choose|j: int| 0 <= j < a.len() && keyed(#[trigger] a[j], "ref"@);
            assert(b.contains(a[j]));
            let i = choose|i: int| 0 <= i < b.len() && b[i] == a[j];
            assert(keyed(b[i], "ref"@));
        } else {
            assert forall|i: int| 0 <= i < b.len() implies !keyed(#[trigger] b[i], "ref"@) by {
                assert(b[i] == a[order[i]]);
                assert(!keyed(a[order[i]], "ref"@));
            }
        }
    }
    lemma_read_label(start, a);
    lemma_read_label(start, b);
    assert(read_pairs(start, a)->Ok_0.label == read_pairs(start, b)->Ok_0.label) by {
        if exists|i: int| 0 <= i < a.len() && keyed(#[trigger] a[i], "label"@) {
            let j = choose|j: int| 0 <= j < a.len() && keyed(#[trigger] a[j], "label"@);
            assert(b.contains(a[j]));
            let i = choose|i: int| 0 <= i < b.len() && b[i] == a[j];
            assert(keyed(b[i], "label"@));
        } else {
            assert forall|i: int| 0 <= i < b.len() implies !keyed(#[trigger] b[i], "label"@) by {
                assert(b[i] == a[order[i]]);
                assert(!keyed(a[order[i]], "label"@));
            }
        }
    }
    lemma_read_note(start, a);
    lemma_read_note(start, b);
    assert(read_pairs(start, a)->Ok_0.note == read_pairs(start, b)->Ok_0.note) by {
        if exists|i: int| 0 <= i < a.len() && keyed(#[trigger] a[i], "note"@) {
            let j = choose|j: int| 0 <= j < a.len() && keyed(#[trigger] a[j], "note"@);
            assert(b.contains(a[j]));
            let i = choose|i: int| 0 <= i < b.len() && b[i] == a[j];
            assert(keyed(b[i], "note"@));
        } else {
            assert forall|i: int| 0 <= i < b.len() implies !keyed(#[trigger] b[i], "note"@) by {
                assert(b[i] == a[order[i]]);
                assert(!keyed(a[order[i]], "note"@));
            }
        }
    }
}

/// Where a URI is parted: the scheme, then the payee up to the first question mark,
/// then the query. What does not begin with the scheme is refused for that, what names
/// no payee is refused for that whatever the query says, and a query that is read but
/// names no denomination is refused for want of one.
pub proof fn law_how_a_uri_is_parted(payee: Seq<char>, query: Seq<char>, uri: Seq<char>)
    requires
        !payee.contains('?'),
    ensures
        request_in("afri:"@ + payee) == request_of(payee, Seq::empty()),
        request_in("afri:"@ + payee + "?"@ + query) == request_of(payee, query),
        !"afri:"@.is_prefix_of(uri) ==> request_in(uri) == Err::<RequestView, RequestFault>(
            RequestFault::WrongScheme,
        ),
        payee_in(payee) is None ==> request_of(payee, query) == Err::<RequestView, RequestFault>(
            RequestFault::BadRecipient,
        ),
        payee_in(payee) is Some ==> match read_pairs(nothing_read(), pieces(query)) {
            Ok(st) => st.denom is None ==> request_of(payee, query) == Err::<
                RequestView,
                RequestFault,
            >(RequestFault::BadDenom),
            Err(fault) => request_of(payee, query) == Err::<RequestView, RequestFault>(fault),
        },
        nothing_read().seen.len() == 0,
        nothing_read().denom is None,
{
    reveal_strlit("afri:");
    reveal_strlit("afri");
    reveal_strlit(":");
    reveal_strlit("?");
    let scheme = crate::pay::request::SCHEME@ + ":"@;
    assert(scheme =~= "afri:"@);
    assert forall|j: int| 0 <= j < payee.len() implies payee[j] != '?' by {
        assert(payee.contains(payee[j]));
    }
    let bare = scheme + payee;
    assert(scheme =~= bare.subrange(0, 5));
    assert(bare.skip(5) =~= payee);
    text::lemma_position_is(payee, '?', payee.len() as int);
    let full = scheme + payee + "?"@ + query;
    assert(scheme =~= full.subrange(0, 5));
    let rest = full.skip(5);
    assert(rest =~= payee + "?"@ + query);
    let n = payee.len() as int;
    assert forall|j: int| 0 <= j < n implies rest[j] != '?' by {
        assert(rest[j] == payee[j]);
    }
    assert(rest[n] == '?');
    text::lemma_position_is(rest, '?', n);
    assert(rest.take(n) =~= payee);
    assert(rest.skip(n + 1) =~= query);
}

/// How bytes are escaped: a letter, a digit, a dash, an underscore, a point and a tilde
/// stand for themselves, and any other byte is a percent sign and two hexadecimal digits
/// in capitals, the high half first.
pub proof fn law_how_bytes_are_escaped(b: u8, rest: Seq<u8>)
    ensures
        ({
            let plain = 97 <= b <= 122 || 65 <= b <= 90 || 48 <= b <= 57 || b == 45 || b == 95 || b
                == 46 || b == 126;
            let whole = escaped(seq![b] + rest);
            &&& escaped(Seq::empty()) == Seq::<char>::empty()
            &&& plain ==> whole == seq![b as char] + escaped(rest)
            &&& !plain ==> {
                &&& whole.len() == 3 + escaped(rest).len()
                &&& whole.skip(3) == escaped(rest)
                &&& whole[0] == '%'
                &&& whole[1] as int == if b / 16 < 10 {
                    48 + b / 16
                } else {
                    55 + b / 16
                }
                &&& whole[2] as int == if b % 16 < 10 {
                    48 + b % 16
                } else {
                    55 + b % 16
                }
            }
        }),
        forall|s: Seq<char>| #[trigger] component(s) == escaped(encode_utf8(s)),
{
    let all = seq![b] + rest;
    assert(all[0] == b);
    assert(all.drop_first() =~= rest);
    let whole = escaped(all);
    if !(97 <= b <= 122 || 65 <= b <= 90 || 48 <= b <= 57 || b == 45 || b == 95 || b == 46 || b
        == 126) {
        assert(whole.skip(3) =~= escaped(rest));
    }
    assert(escaped(Seq::empty()) =~= Seq::<char>::empty());
}

/// How escapes are undone: a percent sign takes the two digits after it, in either case,
/// and without two such digits the whole is refused. Any other byte stands for itself, a
/// plus sign among them. What comes out must be text.
pub proof fn law_how_escapes_are_undone(b: u8, hi: u8, lo: u8, rest: Seq<u8>, s: Seq<char>)
    ensures
        unescaped(Seq::empty()) == Some(Seq::<u8>::empty()),
        b != 37 ==> unescaped(seq![b] + rest) == match unescaped(rest) {
            Some(more) => Some(seq![b] + more),
            None => None,
        },
        unescaped(seq![37u8]) is None,
        unescaped(seq![37u8, hi]) is None,
        ({
            let high = if 48 <= hi <= 57 {
                Some(hi - 48)
            } else if 97 <= hi <= 102 {
                Some(hi - 87)
            } else if 65 <= hi <= 70 {
                Some(hi - 55)
            } else {
                None
            };
            let low = if 48 <= lo <= 57 {
                Some(lo - 48)
            } else if 97 <= lo <= 102 {
                Some(lo - 87)
            } else if 65 <= lo <= 70 {
                Some(lo - 55)
            } else {
                None
            };
            unescaped(seq![37u8, hi, lo] + rest) == if high is Some && low is Some
                && unescaped(rest) is Some {
                Some(seq![(16 * high->0 + low->0) as u8] + unescaped(rest)->0)
            } else {
                None
            }
        }),
        component_value(s) == match unescaped(encode_utf8(s)) {
            Some(bytes) => if valid_utf8(bytes) {
                Some(decode_utf8(bytes))
            } else {
                None
            },
            None => None,
        },
{
    let one = seq![b] + rest;
    assert(one[0] == b);
    assert(one.drop_first() =~= rest);
    let three = seq![37u8, hi, lo] + rest;
    assert(three[0] == 37 && three[1] == hi && three[2] == lo);
    assert(three.skip(3) =~= rest);
}

/// Whom a text names: after an at sign the username that follows, where it is one, and
/// otherwise the address that the text is, where it is one.
pub proof fn law_whom_a_text_names(name: Seq<char>, s: Seq<char>)
    ensures
        payee_in("@"@ + name) == if valid_username(name) {
            Some(PayeeView::Name(name))
        } else {
            None
        },
        s.len() == 0 || s[0] != '@' ==> payee_in(s) == match address_named(s) {
            Some(a) => Some(PayeeView::Address(a)),
            None => None,
        },
        (PayeeView::Name(name)).text() == "@"@ + name,
{
    reveal_strlit("@");
    let whole = "@"@ + name;
    assert(whole[0] == '@');
    assert(whole.skip(1) =~= name);
}

/// How a request is written: its parameters in a fixed order, the denomination always and
/// first, then the amount, the reference, the label and the note where there are any,
/// each value escaped, with ampersands between them.
pub proof fn law_how_a_request_is_written(v: RequestView)
    ensures
        v.parameters() == seq!["denom="@ + component(v.denom)] + (match v.amount {
            Some(a) => seq!["amount="@ + amount_text(a.0 as nat)],
            None => Seq::empty(),
        }) + (match v.reference {
            Some(r) => seq!["ref="@ + text::decimal(r.0 as nat)],
            None => Seq::empty(),
        }) + (match v.label {
            Some(l) => seq!["label="@ + component(l)],
            None => Seq::empty(),
        }) + (match v.note {
            Some(n) => seq!["note="@ + component(n)],
            None => Seq::empty(),
        }),
        v.uri() == "afri:"@ + v.payee.text() + "?"@ + joined(v.parameters()),
        joined(seq![v.denom]) == v.denom,
        v.texts_fit() <==> (v.label matches Some(l) ==> encode_utf8(l).len() <= 128) && (
        v.note matches Some(n) ==> encode_utf8(n).len() <= 128),
        forall|params: Seq<Seq<char>>, last: Seq<char>|
            params.len() > 0 ==> #[trigger] joined(params.push(last)) == joined(params) + "&"@
                + last,
{
    reveal_strlit("denom=");
    reveal_strlit("amount=");
    reveal_strlit("ref=");
    reveal_strlit("label=");
    reveal_strlit("note=");
    reveal_strlit("denom");
    reveal_strlit("amount");
    reveal_strlit("ref");
    reveal_strlit("label");
    reveal_strlit("note");
    reveal_strlit("=");
    reveal_strlit("afri:");
    reveal_strlit("afri");
    reveal_strlit(":");
    assert("denom="@ =~= "denom"@ + "="@);
    assert("amount="@ =~= "amount"@ + "="@);
    assert("ref="@ =~= "ref"@ + "="@);
    assert("label="@ =~= "label"@ + "="@);
    assert("note="@ =~= "note"@ + "="@);
    assert("afri:"@ =~= crate::pay::request::SCHEME@ + ":"@);
    assert forall|params: Seq<Seq<char>>, last: Seq<char>|
        params.len() > 0 implies #[trigger] joined(params.push(last)) == joined(params) + "&"@
        + last by {
        assert(params.push(last).drop_last() =~= params);
    }
}

/// The amount that a text denotes is its units, where they fit.
pub proof fn law_amounts_must_fit(s: Seq<char>)
    ensures
        amount_in(s) matches Some(a) ==> decimal_units(s) == Some(a.0 as nat),
        amount_in(s) is None <==> (decimal_units(s) matches Some(n) ==> n
            > 0xffff_ffff_ffff_ffff_ffff_ffff_ffff_ffff),
{
}

/// What parsing gives is what was read, the request and the refusal alike.
pub proof fn law_parsing_gives_what_was_read(request: PaymentRequest, e: RequestError)
    ensures
        parsed_request(Ok(request)) == Ok::<RequestView, RequestFault>(request.deep_view()),
        parsed_request(Err(e)) == Err::<RequestView, RequestFault>(e.deep_view()),
{
}

} // verus!
