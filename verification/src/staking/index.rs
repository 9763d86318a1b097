//! The order of the candidate index.
//!
//! Candidates are kept in address order, so the list, and every set derived from it,
//! is the same on every node whatever order the bonds arrived in.

use crate::crypto::address::Address;
use crate::primitives::order::{
    bytes_less, lemma_lex_irreflexive, lemma_lex_total, lemma_lex_transitive, lex_less,
};
use vstd::prelude::*;
use vstd::relations::{sorted_by, total_ordering};

verus! {

/// An ordered list with one more address in its place.
pub open spec fn filed(list: Seq<Address>, a: Address) -> Seq<Address>
    decreases list.len(),
{
    if list.len() > 0 && lex_less(a.0@, list.last().0@) {
        filed(list.drop_last(), a).push(list.last())
    } else {
        list.push(a)
    }
}

/// Addresses in order.
pub open spec fn in_order(list: Seq<Address>) -> Seq<Address>
    decreases list.len(),
{
    if list.len() == 0 {
        Seq::empty()
    } else {
        filed(in_order(list.drop_last()), list.last())
    }
}

/// Whether an address goes no later than another.
pub open spec fn no_later() -> spec_fn(Address, Address) -> bool {
    |a: Address, b: Address| !lex_less(b.0@, a.0@)
}

proof fn lemma_filed_at(list: Seq<Address>, a: Address, j: int)
    requires
        0 <= j <= list.len(),
        forall|k: int| j <= k < list.len() ==> lex_less(a.0@, (#[trigger] list[k]).0@),
        j > 0 ==> !lex_less(a.0@, list[j - 1].0@),
    ensures
        filed(list, a) == list.insert(j, a),
    decreases list.len(),
{
    if j == list.len() {
        assert(list.insert(j, a) =~= list.push(a));
    } else {
        assert(lex_less(a.0@, list[list.len() - 1].0@));
        lemma_filed_at(list.drop_last(), a, j);
        assert(list.insert(j, a) =~= list.drop_last().insert(j, a).push(list.last()));
    }
}

/// Put addresses in order.
pub fn sort_addresses(list: &Vec<Address>) -> (out: Vec<Address>)
    ensures
        out@ == in_order(list@),
{
    let mut out: Vec<Address> = Vec::new();
    let mut i: usize = 0;
    assert(out@ =~= Seq::empty());
    while i < list.len()
        invariant
            i <= list@.len(),
            out@ == in_order(list@.take(i as int)),
        decreases list@.len() - i,
    {
        let a: Address = list[i];
        let ghost prefix = list@.take(i as int + 1);
        assert(prefix.drop_last() =~= list@.take(i as int));
        let ghost before = out@;
        let mut j: usize = out.len();
        while j > 0 && bytes_less(a.0.as_slice(), out[j - 1].0.as_slice())
            invariant
                j <= out@.len(),
                before == out@,
                forall|k: int| j <= k < before.len() ==> lex_less(a.0@, (#[trigger] before[k]).0@),
            ensures
                j > 0 ==> !lex_less(a.0@, before[j - 1].0@),
            decreases j,
        {
            j -= 1;
        }
        proof {
            lemma_filed_at(before, a, j as int);
        }
        out.insert(j, a);
        i += 1;
    }
    assert(list@.take(list@.len() as int) =~= list@);
    out
}

proof fn lemma_no_later_is_an_order()
    ensures
        total_ordering(no_later()),
{
    let leq = no_later();
    assert forall|x: Address| #[trigger] leq(x, x) by {
        lemma_lex_irreflexive(x.0@);
    }
    assert forall|x: Address, y: Address| #[trigger] leq(x, y) && #[trigger] leq(y, x) implies x
        == y by {
        lemma_lex_total(x.0@, y.0@);
        assert(x.0 =~= y.0);
    }
    assert forall|x: Address, y: Address| #[trigger] leq(x, y) || #[trigger] leq(y, x) by {
        if lex_less(x.0@, y.0@) && lex_less(y.0@, x.0@) {
            lemma_lex_transitive(x.0@, y.0@, x.0@);
            lemma_lex_irreflexive(x.0@);
        }
    }
    assert forall|x: Address, y: Address, z: Address| #[trigger] leq(x, y) && #[trigger] leq(
        y,
        z,
    ) implies leq(x, z) by {
        if lex_less(z.0@, x.0@) {
            lemma_lex_total(x.0@, y.0@);
            if x.0@ == y.0@ {
                assert(x.0 =~= y.0);
            } else {
                lemma_lex_transitive(z.0@, x.0@, y.0@);
            }
        }
    }
}

proof fn lemma_filed(list: Seq<Address>, a: Address)
    requires
        sorted_by(list, no_later()),
    ensures
        sorted_by(filed(list, a), no_later()),
        filed(list, a).to_multiset() == list.to_multiset().insert(a),
        forall|x: Address| #[trigger] filed(list, a).contains(x) ==> x == a || list.contains(x),
    decreases list.len(),
{
    broadcast use vstd::seq_lib::group_to_multiset_ensures;

    lemma_no_later_is_an_order();
    let leq = no_later();
    let out = filed(list, a);
    if list.len() > 0 && lex_less(a.0@, list.last().0@) {
        let rest = list.drop_last();
        let last = list.last();
        let low = filed(rest, a);
        assert(sorted_by(rest, leq)) by {
            assert forall|i: int, j: int| 0 <= i < j < rest.len() implies #[trigger] leq(
                rest[i],
                rest[j],
            ) by {
                assert(leq(list[i], list[j]));
            }
        }
        lemma_filed(rest, a);
        assert(leq(a, last)) by {
            assert(leq(a, last) || leq(last, a));
        }
        assert forall|i: int, j: int| 0 <= i < j < out.len() implies #[trigger] leq(
            out[i],
            out[j],
        ) by {
            assert(out[i] == low[i]);
            if j == low.len() {
                assert(low.contains(low[i]));
                if low[i] != a {
                    let k = choose|k: int| 0 <= k < rest.len() && rest[k] == low[i];
                    assert(leq(list[k], list[list.len() - 1]));
                }
            } else {
                assert(leq(low[i], low[j]));
            }
        }
        assert forall|x: Address| #[trigger] out.contains(x) implies x == a || list.contains(x) by {
            let k = choose|k: int| 0 <= k < out.len() && out[k] == x;
            if k == low.len() {
                assert(list[list.len() - 1] == x);
            } else {
                assert(low[k] == x);
                assert(low.contains(x));
                if x != a {
                    let m = choose|m: int| 0 <= m < rest.len() && rest[m] == x;
                    assert(list[m] == x);
                }
            }
        }
        assert(list =~= rest.push(last));
        assert(rest.to_multiset().insert(a).insert(last) =~= rest.to_multiset().insert(
            last,
        ).insert(a));
    } else {
        assert forall|i: int, j: int| 0 <= i < j < out.len() implies #[trigger] leq(
            out[i],
            out[j],
        ) by {
            assert(out[i] == list[i]);
            if j == list.len() {
                let last = list[list.len() - 1];
                assert(leq(last, a));
                if i < list.len() - 1 {
                    assert(leq(list[i], last));
                }
            } else {
                assert(leq(list[i], list[j]));
            }
        }
        assert forall|x: Address| #[trigger] out.contains(x) implies x == a || list.contains(x) by {
            let k = choose|k: int| 0 <= k < out.len() && out[k] == x;
            if k < list.len() {
                assert(list[k] == x);
            }
        }
    }
}

/// Putting addresses in order loses none and leaves them in order.
pub proof fn law_filing_sorts(list: Seq<Address>)
    ensures
        sorted_by(in_order(list), no_later()),
        in_order(list).to_multiset() == list.to_multiset(),
    decreases list.len(),
{
    broadcast use vstd::seq_lib::group_to_multiset_ensures;

    if list.len() > 0 {
        law_filing_sorts(list.drop_last());
        lemma_filed(in_order(list.drop_last()), list.last());
        assert(list =~= list.drop_last().push(list.last()));
    } else {
        assert(list =~= Seq::empty());
    }
}

/// The order that addresses came in does not matter: the same addresses are filed
/// as the same list.
pub proof fn law_filing_ignores_arrival(a: Seq<Address>, b: Seq<Address>)
    requires
        a.to_multiset() == b.to_multiset(),
    ensures
        in_order(a) == in_order(b),
{
    law_filing_sorts(a);
    law_filing_sorts(b);
    lemma_no_later_is_an_order();
    vstd::seq_lib::lemma_sorted_unique(in_order(a), in_order(b), no_later());
}

} // verus!
