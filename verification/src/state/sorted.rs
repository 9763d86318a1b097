//! Byte strings kept under digests, in the order of the digests.

use crate::crypto::hash::{lemma_hash_bytes_determine, Hash32};
use crate::primitives::order::{
    bytes_less, lemma_lex_irreflexive, lemma_lex_total, lemma_lex_transitive, lex_less,
};
use vstd::prelude::*;

verus! {

/// Whether one digest comes before another.
pub open spec fn hash_less(a: Hash32, b: Hash32) -> bool {
    lex_less(a.0@, b.0@)
}

/// A map from digests to byte strings, held as a sorted list.
#[derive(Debug)]
pub struct SortedRecords {
    items: Vec<(Hash32, Vec<u8>)>,
}

/// Where a key is in a list of records.
pub open spec fn index_of_key(list: Seq<(Hash32, Seq<u8>)>, k: Hash32) -> int {
    choose|i: int| 0 <= i < list.len() && (#[trigger] list[i]).0 == k
}

/// The map that a list of records with distinct keys denotes.
pub open spec fn map_of_list(list: Seq<(Hash32, Seq<u8>)>) -> Map<Hash32, Seq<u8>> {
    Map::new(
        |k: Hash32| exists|i: int| 0 <= i < list.len() && (#[trigger] list[i]).0 == k,
        |k: Hash32| list[index_of_key(list, k)].1,
    )
}

/// Whether the keys of a list ascend.
pub open spec fn ascending(list: Seq<(Hash32, Seq<u8>)>) -> bool {
    forall|i: int, j: int|
        0 <= i < j < list.len() ==> hash_less(#[trigger] list[i].0, #[trigger] list[j].0)
}

/// In an ascending list a key occurs once, so its record is what the map holds.
pub proof fn lemma_record_at(list: Seq<(Hash32, Seq<u8>)>, i: int)
    requires
        ascending(list),
        0 <= i < list.len(),
    ensures
        map_of_list(list).dom().contains(list[i].0),
        map_of_list(list)[list[i].0] == list[i].1,
{
    let k = list[i].0;
    assert(list[i].0 == k);
    let j = index_of_key(list, k);
    if i < j {
        assert(hash_less(list[i].0, list[j].0));
        lemma_lex_irreflexive(k.0@);
    }
    if j < i {
        assert(hash_less(list[j].0, list[i].0));
        lemma_lex_irreflexive(k.0@);
    }
}

impl View for SortedRecords {
    type V = Map<Hash32, Seq<u8>>;

    closed spec fn view(&self) -> Map<Hash32, Seq<u8>> {
        map_of_list(self.items.deep_view())
    }
}

impl Clone for SortedRecords {
    fn clone(&self) -> (r: Self)
        ensures
            r@ == self@,
    {
        proof {
            use_type_invariant(self);
        }
        let mut items: Vec<(Hash32, Vec<u8>)> = Vec::new();
        let mut i: usize = 0;
        let ghost all = self.items.deep_view();
        while i < self.items.len()
            invariant
                i <= self.items@.len(),
                all == self.items.deep_view(),
                items.deep_view() == all.take(i as int),
            decreases self.items@.len() - i,
        {
            let copy = self.items[i].1.clone();
            assert(copy@ =~= self.items@[i as int].1@);
            let ghost before = items.deep_view();
            items.push((self.items[i].0, copy));
            assert(copy.deep_view() =~= self.items@[i as int].1.deep_view());
            assert(items.deep_view() =~= before.push(all[i as int]));
            i += 1;
        }
        assert(items.deep_view() =~= all);
        SortedRecords { items }
    }
}

impl SortedRecords {
    #[verifier::type_invariant]
    spec fn well_formed(&self) -> bool {
        ascending(self.items.deep_view())
    }

    /// No records.
    pub fn new() -> (r: Self)
        ensures
            r@ == Map::<Hash32, Seq<u8>>::empty(),
    {
        let r = SortedRecords { items: Vec::new() };
        assert(r.items.deep_view() =~= Seq::empty());
        assert(r@ =~= Map::empty());
        r
    }

    /// Number of records.
    pub fn len(&self) -> (n: usize)
        ensures
            self@.dom().finite(),
            n == self@.dom().len(),
    {
        proof {
            use_type_invariant(self);
            lemma_list_len(self.items.deep_view());
        }
        self.items.len()
    }

    /// Where `key` is, or where it belongs.
    fn position(&self, key: &Hash32) -> (p: usize)
        ensures
            p <= self.items@.len(),
            forall|i: int| 0 <= i < p ==> hash_less(#[trigger] self.items.deep_view()[i].0, *key),
            forall|i: int|
                p <= i < self.items@.len() ==> !hash_less(
                    #[trigger] self.items.deep_view()[i].0,
                    *key,
                ),
    {
        proof {
            use_type_invariant(self);
        }
        let ghost list = self.items.deep_view();
        let mut low: usize = 0;
        let mut high: usize = self.items.len();
        while low < high
            invariant
                low <= high <= self.items@.len(),
                list == self.items.deep_view(),
                ascending(list),
                forall|i: int| 0 <= i < low ==> hash_less(#[trigger] list[i].0, *key),
                forall|i: int| high <= i < list.len() ==> !hash_less(#[trigger] list[i].0, *key),
            decreases high - low,
        {
            let mid: usize = low + (high - low) / 2;
            let ghost at = list[mid as int].0;
            if bytes_less(&self.items[mid].0.0, &key.0) {
                proof {
                    assert forall|i: int| 0 <= i < mid + 1 implies hash_less(
                        #[trigger] list[i].0,
                        *key,
                    ) by {
                        if i < mid {
                            assert(hash_less(list[i].0, list[mid as int].0));
                            lemma_lex_transitive(list[i].0.0@, at.0@, key.0@);
                        }
                    }
                }
                low = mid + 1;
            } else {
                proof {
                    assert forall|i: int| mid <= i < list.len() implies !hash_less(
                        #[trigger] list[i].0,
                        *key,
                    ) by {
                        if i > mid && hash_less(list[i].0, *key) {
                            assert(hash_less(list[mid as int].0, list[i].0));
                            lemma_lex_transitive(at.0@, list[i].0.0@, key.0@);
                        }
                    }
                }
                high = mid;
            }
        }
        low
    }

    /// What is stored under `key`.
    pub fn get(&self, key: &Hash32) -> (r: Option<&Vec<u8>>)
        ensures
            match r {
                Some(v) => self@.dom().contains(*key) && v@ == self@[*key],
                None => !self@.dom().contains(*key),
            },
    {
        proof {
            use_type_invariant(self);
        }
        let ghost list = self.items.deep_view();
        let p: usize = self.position(key);
        if p < self.items.len() && self.items[p].0.same(key) {
            proof {
                lemma_record_at(list, p as int);
                assert(self.items@[p as int].1.deep_view() =~= self.items@[p as int].1@);
            }
            return Some(&self.items[p].1);
        }
        proof {
            if self@.dom().contains(*key) {
                let i = choose|i: int| 0 <= i < list.len() && (#[trigger] list[i]).0 == *key;
                lemma_lex_irreflexive(key.0@);
                assert(!hash_less(list[i].0, *key));
                assert(i >= p);
                if i > p {
                    assert(hash_less(list[p as int].0, list[i].0));
                }
            }
        }
        None
    }

    /// Whether anything is stored under `key`.
    pub fn contains(&self, key: &Hash32) -> (b: bool)
        ensures
            b == self@.dom().contains(*key),
    {
        self.get(key).is_some()
    }

    /// Store a record, replacing what was there.
    pub fn insert(&mut self, key: Hash32, value: Vec<u8>)
        ensures
            final(self)@ == old(self)@.insert(key, value@),
    {
        proof {
            use_type_invariant(&*self);
        }
        let p: usize = self.position(&key);
        let ghost list = self.items.deep_view();
        let ghost record = (key, value@);
        let mut items: Vec<(Hash32, Vec<u8>)> = Vec::new();
        std::mem::swap(&mut items, &mut self.items);
        assert(value.deep_view() =~= value@);
        if p < items.len() && items[p].0.same(&key) {
            items.set(p, (key, value));
            proof {
                assert(items.deep_view() =~= list.update(p as int, record));
                lemma_replace_record(list, p as int, record);
            }
        } else {
            proof {
                if p < list.len() {
                    lemma_lex_total(list[p as int].0.0@, key.0@);
                    if list[p as int].0.0@ == key.0@ {
                        lemma_hash_bytes_determine(list[p as int].0, key);
                    }
                }
            }
            items.insert(p, (key, value));
            proof {
                assert(items.deep_view() =~= list.insert(p as int, record));
                lemma_insert_record(list, p as int, record);
            }
        }
        self.items = items;
    }

    /// The records, in the order of their keys.
    pub fn listed(&self) -> (list: Vec<(Hash32, &Vec<u8>)>)
        ensures
            ascending(list.deep_view()),
            map_of_list(list.deep_view()) == self@,
    {
        proof {
            use_type_invariant(self);
        }
        let mut list: Vec<(Hash32, &Vec<u8>)> = Vec::new();
        let ghost all = self.items.deep_view();
        let mut i: usize = 0;
        while i < self.items.len()
            invariant
                i <= self.items@.len(),
                all == self.items.deep_view(),
                list.deep_view() == all.take(i as int),
            decreases self.items@.len() - i,
        {
            let ghost before = list.deep_view();
            list.push((self.items[i].0, &self.items[i].1));
            assert(list.deep_view() =~= before.push(all[i as int]));
            i += 1;
        }
        assert(list.deep_view() =~= all);
        list
    }
}

proof fn lemma_list_len(list: Seq<(Hash32, Seq<u8>)>)
    requires
        ascending(list),
    ensures
        map_of_list(list).dom().finite(),
        map_of_list(list).dom().len() == list.len(),
    decreases list.len(),
{
    if list.len() == 0 {
        assert(map_of_list(list).dom() =~= Set::empty());
    } else {
        let front = list.drop_last();
        let last = list.last();
        lemma_list_len(front);
        assert(map_of_list(list).dom() =~= map_of_list(front).dom().insert(last.0)) by {
            assert forall|k: Hash32| #[trigger]
                map_of_list(list).dom().contains(k) == map_of_list(front).dom().insert(
                    last.0,
                ).contains(k) by {
                if map_of_list(list).dom().contains(k) {
                    let i = choose|i: int| 0 <= i < list.len() && (#[trigger] list[i]).0 == k;
                    if i < front.len() {
                        assert(front[i].0 == k);
                    }
                }
                if map_of_list(front).dom().contains(k) {
                    let i = choose|i: int| 0 <= i < front.len() && (#[trigger] front[i]).0 == k;
                    assert(list[i].0 == k);
                }
                assert(list[list.len() - 1].0 == last.0);
            }
        }
        assert(!map_of_list(front).dom().contains(last.0)) by {
            if map_of_list(front).dom().contains(last.0) {
                let i = choose|i: int| 0 <= i < front.len() && (#[trigger] front[i]).0 == last.0;
                assert(hash_less(list[i].0, list[list.len() - 1].0));
                lemma_lex_irreflexive(last.0.0@);
            }
        }
    }
}

proof fn lemma_replace_record(
    list: Seq<(Hash32, Seq<u8>)>,
    p: int,
    record: (Hash32, Seq<u8>),
)
    requires
        ascending(list),
        0 <= p < list.len(),
        list[p].0 == record.0,
    ensures
        ascending(list.update(p, record)),
        map_of_list(list.update(p, record)) == map_of_list(list).insert(record.0, record.1),
{
    let new = list.update(p, record);
    assert forall|i: int, j: int| 0 <= i < j < new.len() implies hash_less(
        #[trigger] new[i].0,
        #[trigger] new[j].0,
    ) by {
        assert(hash_less(list[i].0, list[j].0));
    }
    assert(new[p] == record);
    assert forall|i: int| 0 <= i < new.len() && (#[trigger] new[i]).0 != record.0 implies
        list.contains(new[i]) by {
        assert(list[i] == new[i]);
    }
    assert forall|i: int| 0 <= i < list.len() && (#[trigger] list[i]).0 != record.0 implies
        new.contains(list[i]) by {
        assert(new[i] == list[i]);
    }
    lemma_same_records(list, new, record);
}

proof fn lemma_insert_record(list: Seq<(Hash32, Seq<u8>)>, p: int, record: (Hash32, Seq<u8>))
    requires
        ascending(list),
        0 <= p <= list.len(),
        forall|i: int| 0 <= i < p ==> hash_less(#[trigger] list[i].0, record.0),
        forall|i: int| p <= i < list.len() ==> !hash_less(#[trigger] list[i].0, record.0),
        p < list.len() ==> hash_less(record.0, list[p].0),
    ensures
        ascending(list.insert(p, record)),
        map_of_list(list.insert(p, record)) == map_of_list(list).insert(record.0, record.1),
{
    let new = list.insert(p, record);
    assert forall|i: int, j: int| 0 <= i < j < new.len() implies hash_less(
        #[trigger] new[i].0,
        #[trigger] new[j].0,
    ) by {
        let a = if i < p {
            i
        } else {
            i - 1
        };
        let b = if j < p {
            j
        } else {
            j - 1
        };
        if i != p && j != p {
            assert(new[i] == list[a] && new[j] == list[b]);
            assert(hash_less(list[a].0, list[b].0));
        } else if j == p {
            assert(hash_less(list[i].0, record.0));
        } else {
            assert(new[j] == list[b]);
            if b > p {
                assert(hash_less(list[p].0, list[b].0));
                lemma_lex_transitive(record.0.0@, list[p].0.0@, list[b].0.0@);
            }
        }
    }
    assert(new[p] == record);
    assert forall|i: int| 0 <= i < new.len() && (#[trigger] new[i]).0 != record.0 implies
        list.contains(new[i]) by {
        let a = if i < p {
            i
        } else {
            i - 1
        };
        assert(list[a] == new[i]);
    }
    assert forall|i: int| 0 <= i < list.len() && (#[trigger] list[i]).0 != record.0 implies
        new.contains(list[i]) by {
        let a = if i < p {
            i
        } else {
            i + 1
        };
        assert(new[a] == list[i]);
    }
    lemma_same_records(list, new, record);
}

/// Two ascending lists that agree but for one record denote maps that do.
proof fn lemma_same_records(
    list: Seq<(Hash32, Seq<u8>)>,
    new: Seq<(Hash32, Seq<u8>)>,
    record: (Hash32, Seq<u8>),
)
    requires
        ascending(list),
        ascending(new),
        exists|i: int| 0 <= i < new.len() && #[trigger] new[i] == record,
        forall|i: int|
            0 <= i < new.len() && (#[trigger] new[i]).0 != record.0 ==> list.contains(new[i]),
        forall|i: int|
            0 <= i < list.len() && (#[trigger] list[i]).0 != record.0 ==> new.contains(list[i]),
    ensures
        map_of_list(new) == map_of_list(list).insert(record.0, record.1),
{
    let a = map_of_list(new);
    let b = map_of_list(list).insert(record.0, record.1);
    let at = choose|i: int| 0 <= i < new.len() && #[trigger] new[i] == record;
    lemma_record_at(new, at);
    assert forall|k: Hash32| #[trigger] a.dom().contains(k) == b.dom().contains(k) by {
        if a.dom().contains(k) && k != record.0 {
            let i = choose|i: int| 0 <= i < new.len() && (#[trigger] new[i]).0 == k;
            assert(list.contains(new[i]));
            let j = choose|j: int| 0 <= j < list.len() && list[j] == new[i];
            assert(list[j].0 == k);
        }
        if b.dom().contains(k) && k != record.0 {
            let i = choose|i: int| 0 <= i < list.len() && (#[trigger] list[i]).0 == k;
            assert(new.contains(list[i]));
            let j = choose|j: int| 0 <= j < new.len() && new[j] == list[i];
            assert(new[j].0 == k);
        }
    }
    assert forall|k: Hash32| #[trigger] a.dom().contains(k) implies a[k] == b[k] by {
        if k != record.0 {
            let i = choose|i: int| 0 <= i < new.len() && (#[trigger] new[i]).0 == k;
            assert(list.contains(new[i]));
            let j = choose|j: int| 0 <= j < list.len() && list[j] == new[i];
            lemma_record_at(new, i);
            lemma_record_at(list, j);
        }
    }
    assert(a =~= b);
}

} // verus!
