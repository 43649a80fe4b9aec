//! A map that keeps its entries in the order of their keys.

use vstd::prelude::*;

use crate::order::{compare_texts, Order};

verus! {

/// A key whose values have an order.
pub trait Key: View + Sized {
    /// Whether `a` comes before `b`.
    spec fn before(a: Self::V, b: Self::V) -> bool;

    /// The order is strict and total.
    proof fn lemma_total(a: Self::V, b: Self::V)
        ensures
            Self::before(a, b) ==> a != b && !Self::before(b, a),
            a != b ==> Self::before(a, b) || Self::before(b, a),
    ;

    /// The order is transitive.
    proof fn lemma_transitive(a: Self::V, b: Self::V, c: Self::V)
        requires
            Self::before(a, b),
            Self::before(b, c),
        ensures
            Self::before(a, c),
    ;

    /// Compares two keys.
    fn compare(&self, other: &Self) -> (order: Order)
        ensures
            match order {
                Order::Less => Self::before(self@, other@),
                Order::Equal => self@ == other@,
                Order::Greater => Self::before(other@, self@),
            },
    ;
}

impl Key for String {
    open spec fn before(a: Seq<char>, b: Seq<char>) -> bool {
        crate::order::precedes(a, b)
    }

    proof fn lemma_total(a: Seq<char>, b: Seq<char>) {
        crate::order::law_text_order_is_total(a, b);
    }

    proof fn lemma_transitive(a: Seq<char>, b: Seq<char>, c: Seq<char>) {
        crate::order::law_text_order_is_transitive(a, b, c);
    }

    fn compare(&self, other: &String) -> (order: Order) {
        compare_texts(self.as_str(), other.as_str())
    }
}

/// A map from keys to values.
pub struct SortedMap<K: Key, T> {
    entries: Vec<(K, T)>,
}

/// Whether the keys of `entries` ascend.
pub open spec fn ascending<K: Key, T>(entries: Seq<(K, T)>) -> bool {
    forall|i: int, j: int|
        0 <= i < j < entries.len() ==> K::before(
            #[trigger] entries[i].0@,
            #[trigger] entries[j].0@,
        )
}

/// Whether `entries` has an entry with this key.
pub open spec fn has_entry<K: Key, T>(entries: Seq<(K, T)>, k: K::V) -> bool {
    exists|i: int| 0 <= i < entries.len() && #[trigger] entries[i].0@ == k
}

/// Where the entry with this key is.
pub open spec fn entry_index<K: Key, T>(entries: Seq<(K, T)>, k: K::V) -> int {
    choose|i: int| 0 <= i < entries.len() && #[trigger] entries[i].0@ == k
}

/// The map that `entries` stand for.
pub open spec fn entries_map<K: Key, T>(entries: Seq<(K, T)>) -> Map<K::V, T> {
    Map::new(
        |k: K::V| has_entry(entries, k),
        |k: K::V| entries[entry_index(entries, k)].1,
    )
}

/// The map has the value of every entry, since ascending keys are distinct.
pub proof fn lemma_index<K: Key, T>(entries: Seq<(K, T)>, i: int)
    requires
        ascending(entries),
        0 <= i < entries.len(),
    ensures
        has_entry(entries, entries[i].0@),
        entry_index(entries, entries[i].0@) == i,
        entries_map(entries).contains_key(entries[i].0@),
        entries_map(entries)[entries[i].0@] == entries[i].1,
{
    let j = entry_index(entries, entries[i].0@);
    K::lemma_total(entries[i].0@, entries[j].0@);
    K::lemma_total(entries[j].0@, entries[i].0@);
}

/// Changing the value of an entry changes the map at its key.
proof fn lemma_update<K: Key, T>(entries: Seq<(K, T)>, i: int, value: T)
    requires
        ascending(entries),
        0 <= i < entries.len(),
    ensures
        ascending(entries.update(i, (entries[i].0, value))),
        entries_map(entries.update(i, (entries[i].0, value))) == entries_map(entries).insert(
            entries[i].0@,
            value,
        ),
{
    let key = entries[i].0@;
    let next = entries.update(i, (entries[i].0, value));
    assert(forall|j: int| 0 <= j < entries.len() ==> #[trigger] next[j].0 == entries[j].0);
    lemma_index(entries, i);
    lemma_index(next, i);
    assert forall|k: K::V| has_entry(next, k) <==> has_entry(entries, k) by {
        if has_entry(entries, k) {
            assert(next[entry_index(entries, k)].0@ == k);
        }
        if has_entry(next, k) {
            assert(entries[entry_index(next, k)].0@ == k);
        }
    }
    assert forall|k: K::V| has_entry(entries, k) && k != key implies entries_map(next)[k]
        == entries_map(entries)[k] by {
        let j = entry_index(entries, k);
        lemma_index(entries, j);
        assert(next[j].0@ == k);
        lemma_index(next, j);
    }
    assert(entries_map(next) =~= entries_map(entries).insert(key, value));
}

/// An entry that is put where it belongs adds its key to the map.
proof fn lemma_insert<K: Key, T>(entries: Seq<(K, T)>, i: int, key: K, value: T)
    requires
        ascending(entries),
        0 <= i <= entries.len(),
        forall|j: int| 0 <= j < i ==> K::before(#[trigger] entries[j].0@, key@),
        forall|j: int| i <= j < entries.len() ==> K::before(key@, #[trigger] entries[j].0@),
    ensures
        ascending(entries.insert(i, (key, value))),
        !entries_map(entries).contains_key(key@),
        entries_map(entries.insert(i, (key, value))) == entries_map(entries).insert(key@, value),
{
    let next = entries.insert(i, (key, value));
    assert(next[i].0@ == key@);
    assert(ascending(next));
    lemma_index(next, i);
    assert forall|k: K::V| has_entry(entries, k) implies k != key@ && has_entry(next, k)
        && entries_map(next)[k] == entries_map(entries)[k] by {
        let j = entry_index(entries, k);
        K::lemma_total(entries[j].0@, key@);
        K::lemma_total(key@, entries[j].0@);
        let m = if j < i {
            j
        } else {
            j + 1
        };
        assert(next[m].0@ == k);
        lemma_index(next, m);
    }
    assert forall|k: K::V| has_entry(next, k) && k != key@ implies has_entry(entries, k) by {
        let m = entry_index(next, k);
        let j = if m < i {
            m
        } else {
            m - 1
        };
        assert(entries[j].0@ == k);
    }
    assert(entries_map(next) =~= entries_map(entries).insert(key@, value));
}

impl<K: Key, T> View for SortedMap<K, T> {
    type V = Map<K::V, T>;

    closed spec fn view(&self) -> Map<K::V, T> {
        entries_map(self.entries@)
    }
}

impl<K: Key, T> SortedMap<K, T> {
    /// Whether the entries are kept in order.
    pub closed spec fn wf(&self) -> bool {
        ascending(self.entries@)
    }

    /// A map without entries.
    pub fn new() -> (map: SortedMap<K, T>)
        ensures
            map.wf(),
            map@ == Map::<K::V, T>::empty(),
    {
        let map = SortedMap { entries: Vec::new() };
        assert(map@ =~= Map::<K::V, T>::empty());
        map
    }

    /// Finds the entry with this key, or else where it belongs.
    fn find(&self, key: &K) -> (pos: (bool, usize))
        requires
            self.wf(),
        ensures
            pos.1 <= self.entries@.len(),
            pos.0 ==> pos.1 < self.entries@.len() && self.entries@[pos.1 as int].0@ == key@,
            !pos.0 ==> {
                &&& forall|i: int|
                    0 <= i < pos.1 ==> K::before(#[trigger] self.entries@[i].0@, key@)
                &&& forall|i: int|
                    pos.1 <= i < self.entries@.len() ==> K::before(
                        key@,
                        #[trigger] self.entries@[i].0@,
                    )
            },
    {
        let mut low: usize = 0;
        let mut high: usize = self.entries.len();
        while low < high
            invariant
                self.wf(),
                low <= high <= self.entries@.len(),
                forall|i: int| 0 <= i < low ==> K::before(#[trigger] self.entries@[i].0@, key@),
                forall|i: int|
                    high <= i < self.entries@.len() ==> K::before(
                        key@,
                        #[trigger] self.entries@[i].0@,
                    ),
            decreases high - low,
        {
            let mid: usize = low + (high - low) / 2;
            let ghost at = self.entries@[mid as int].0@;
            match self.entries[mid].0.compare(key) {
                Order::Less => {
                    assert forall|i: int| 0 <= i < mid + 1 implies K::before(
                        #[trigger] self.entries@[i].0@,
                        key@,
                    ) by {
                        if i < mid {
                            K::lemma_transitive(self.entries@[i].0@, at, key@);
                        }
                    }
                    low = mid + 1;
                },
                Order::Equal => {
                    return (true, mid);
                },
                Order::Greater => {
                    assert forall|i: int| mid <= i < self.entries@.len() implies K::before(
                        key@,
                        #[trigger] self.entries@[i].0@,
                    ) by {
                        if mid < i {
                            K::lemma_transitive(key@, at, self.entries@[i].0@);
                        }
                    }
                    high = mid;
                },
            }
        }
        (false, low)
    }

    /// The value with this key, which is `default` if there is none yet.
    pub fn entry_or_insert(&mut self, key: K, default: T) -> (value: &mut T)
        requires
            old(self).wf(),
        ensures
            final(self).wf(),
            *value == if old(self)@.contains_key(key@) {
                old(self)@[key@]
            } else {
                default
            },
            final(self)@ == old(self)@.insert(key@, *final(value)),
    {
        let ghost before = self.entries@;
        let (found, i) = self.find(&key);
        if found {
            proof {
                lemma_index(before, i as int);
            }
        } else {
            proof {
                lemma_insert(before, i as int, key, default);
            }
            self.entries.insert(i, (key, default));
        }
        let ghost entries = self.entries@;
        proof {
            lemma_index(entries, i as int);
            assert forall|value: T| #[trigger]
                entries_map(entries.update(i as int, (entries[i as int].0, value)))
                    == entries_map(before).insert(key@, value) by {
                lemma_update(entries, i as int, value);
                assert(entries_map(entries).insert(key@, value) =~= entries_map(before).insert(
                    key@,
                    value,
                ));
            }
        }
        &mut self.entries[i].1
    }

    /// The entries, in the order of their keys.
    pub fn into_entries(self) -> (entries: Vec<(K, T)>)
        requires
            self.wf(),
        ensures
            ascending(entries@),
            self@ == entries_map(entries@),
            forall|i: int, j: int|
                0 <= i < j < entries@.len() ==> K::before(
                    #[trigger] entries@[i].0@,
                    #[trigger] entries@[j].0@,
                ),
            forall|k: K::V| #[trigger]
                self@.contains_key(k) <==> exists|i: int|
                    0 <= i < entries@.len() && #[trigger] entries@[i].0@ == k,
            forall|i: int|
                0 <= i < entries@.len() ==> self@[#[trigger] entries@[i].0@] == entries@[i].1,
    {
        assert forall|i: int| 0 <= i < self.entries@.len() implies self@[
            #[trigger] self.entries@[i].0@
        ] == self.entries@[i].1 by {
            lemma_index(self.entries@, i);
        }
        self.entries
    }
}

} // verus!
