//! A map keyed by text that lists its entries in the order of the keys.

use crate::text;
use vstd::prelude::*;

verus! {

/// Entries in the order of their keys, each key once.
pub open spec fn ordered<V>(entries: Seq<(Seq<char>, V)>) -> bool {
    forall|i: int, j: int|
        0 <= i < j < entries.len() ==> text::precedes(
            (#[trigger] entries[i]).0,
            (#[trigger] entries[j]).0,
        )
}

/// Whether an entry has the key.
pub open spec fn has_key<V>(entries: Seq<(Seq<char>, V)>, key: Seq<char>) -> bool {
    exists|i: int| 0 <= i < entries.len() && (#[trigger] entries[i]).0 == key
}

/// The position of an entry with the key.
pub open spec fn key_index<V>(entries: Seq<(Seq<char>, V)>, key: Seq<char>) -> int {
    choose|i: int| 0 <= i < entries.len() && (#[trigger] entries[i]).0 == key
}

/// The map from the key of each entry to its value.
pub open spec fn as_map<V>(entries: Seq<(Seq<char>, V)>) -> Map<Seq<char>, V> {
    Map::new(
        |key: Seq<char>| has_key(entries, key),
        |key: Seq<char>| entries[key_index(entries, key)].1,
    )
}

/// A key has one entry only.
pub proof fn lemma_distinct_keys<V>(entries: Seq<(Seq<char>, V)>, i: int, j: int)
    requires
        ordered(entries),
        0 <= i < entries.len(),
        0 <= j < entries.len(),
        entries[i].0 == entries[j].0,
    ensures
        i == j,
{
    text::lemma_precedes_irreflexive(entries[i].0);
}

/// Each entry is in the map.
pub proof fn lemma_entry_in_map<V>(entries: Seq<(Seq<char>, V)>, i: int)
    requires
        ordered(entries),
        0 <= i < entries.len(),
    ensures
        as_map(entries).dom().contains(entries[i].0),
        as_map(entries)[entries[i].0] == entries[i].1,
{
    let key = entries[i].0;
    assert(has_key(entries, key));
    lemma_distinct_keys(entries, i, key_index(entries, key));
}

/// A map of values by text, which lists them in the order of their keys.
#[derive(Debug, PartialEq, Eq)]
pub struct TextMap<V> {
    items: Vec<(String, V)>,
}

impl<V> View for TextMap<V> {
    type V = Map<Seq<char>, V>;

    open spec fn view(&self) -> Map<Seq<char>, V> {
        as_map(self.entries())
    }
}

spec fn entries_of<V>(items: Seq<(String, V)>) -> Seq<(Seq<char>, V)> {
    items.map_values(|item: (String, V)| (item.0@, item.1))
}

impl<V> TextMap<V> {
    /// The entries in the order of their keys.
    pub closed spec fn entries(&self) -> Seq<(Seq<char>, V)> {
        entries_of(self.items@)
    }

    #[verifier::type_invariant]
    spec fn inv(self) -> bool {
        ordered(self.entries())
    }

    /// An empty map.
    pub fn new() -> (map: TextMap<V>)
        ensures
            map.entries() == Seq::<(Seq<char>, V)>::empty(),
            map@ == Map::<Seq<char>, V>::empty(),
    {
        let map = TextMap { items: Vec::new() };
        proof {
            assert(map.entries() =~= Seq::<(Seq<char>, V)>::empty());
            assert(map@ =~= Map::<Seq<char>, V>::empty());
        }
        map
    }

    /// The number of entries.
    pub fn len(&self) -> (n: usize)
        ensures
            n == self.entries().len(),
            ordered(self.entries()),
    {
        proof {
            use_type_invariant(self);
        }
        self.items.len()
    }

    /// Whether there is no entry.
    pub fn is_empty(&self) -> (empty: bool)
        ensures
            empty == (self.entries().len() == 0),
            empty == (self@ == Map::<Seq<char>, V>::empty()),
    {
        let empty = self.items.is_empty();
        proof {
            if empty {
                assert(self@ =~= Map::<Seq<char>, V>::empty());
            } else {
                assert(has_key(self.entries(), self.entries()[0].0));
                assert(self@.dom().contains(self.entries()[0].0));
            }
        }
        empty
    }

    /// The key of an entry.
    pub fn key_at(&self, i: usize) -> (key: &String)
        requires
            i < self.entries().len(),
        ensures
            key@ == self.entries()[i as int].0,
    {
        &self.items[i].0
    }

    /// The value of an entry.
    pub fn value_at(&self, i: usize) -> (value: &V)
        requires
            i < self.entries().len(),
        ensures
            *value == self.entries()[i as int].1,
    {
        &self.items[i].1
    }

    /// The number of entries whose keys precede the key.
    fn rank(&self, key: &str) -> (at: usize)
        ensures
            at <= self.entries().len(),
            forall|i: int|
                0 <= i < at ==> text::precedes((#[trigger] self.entries()[i]).0, key@),
            forall|i: int|
                at <= i < self.entries().len() ==> !text::precedes(
                    (#[trigger] self.entries()[i]).0,
                    key@,
                ),
    {
        proof {
            use_type_invariant(self);
        }
        let mut low: usize = 0;
        let mut high: usize = self.items.len();
        while low < high
            invariant
                low <= high <= self.entries().len(),
                self.entries().len() == self.items@.len(),
                ordered(self.entries()),
                forall|i: int|
                    0 <= i < low ==> text::precedes((#[trigger] self.entries()[i]).0, key@),
                forall|i: int|
                    high <= i < self.entries().len() ==> !text::precedes(
                        (#[trigger] self.entries()[i]).0,
                        key@,
                    ),
            decreases high - low,
        {
            let middle: usize = low + (high - low) / 2;
            let ghost pivot = self.entries()[middle as int].0;
            if text::text_precedes(self.items[middle].0.as_str(), key) {
                proof {
                    assert forall|i: int| 0 <= i < middle + 1 implies text::precedes(
                        (#[trigger] self.entries()[i]).0,
                        key@,
                    ) by {
                        if i < middle {
                            text::lemma_precedes_transitive(self.entries()[i].0, pivot, key@);
                        }
                    }
                }
                low = middle + 1;
            } else {
                proof {
                    assert forall|i: int| middle <= i < self.entries().len() implies !text::precedes(
                        (#[trigger] self.entries()[i]).0,
                        key@,
                    ) by {
                        if i > middle && text::precedes(self.entries()[i].0, key@) {
                            text::lemma_precedes_transitive(pivot, self.entries()[i].0, key@);
                        }
                    }
                }
                high = middle;
            }
        }
        low
    }

    /// The position of the entry with the key.
    fn position(&self, key: &str) -> (found: Option<usize>)
        ensures
            found is Some <==> self@.dom().contains(key@),
            found matches Some(i) ==> i < self.entries().len() && self.entries()[i as int].0 == key@
                && self@[key@] == self.entries()[i as int].1,
    {
        proof {
            use_type_invariant(self);
        }
        let at = self.rank(key);
        if at < self.items.len() && text::same_text(self.items[at].0.as_str(), key) {
            proof {
                lemma_entry_in_map(self.entries(), at as int);
            }
            Some(at)
        } else {
            proof {
                if has_key(self.entries(), key@) {
                    let i = key_index(self.entries(), key@);
                    text::lemma_precedes_irreflexive(key@);
                    assert(i >= at);
                    assert(i > at);
                    text::lemma_precedes_transitive(self.entries()[at as int].0, self.entries()[i].0, key@);
                }
            }
            None
        }
    }

    /// The value of the key.
    pub fn get(&self, key: &str) -> (value: Option<&V>)
        ensures
            value is Some <==> self@.dom().contains(key@),
            value matches Some(value) ==> *value == self@[key@],
    {
        match self.position(key) {
            Some(i) => Some(&self.items[i].1),
            None => None,
        }
    }

    /// Gives the key a value, in place of the one that it had.
    pub fn insert(&mut self, key: String, value: V)
        ensures
            final(self)@ == old(self)@.insert(key@, value),
    {
        proof {
            use_type_invariant(&*self);
        }
        let ghost before = self.entries();
        let at = self.rank(key.as_str());
        let found = self.position(key.as_str());
        let mut items: Vec<(String, V)> = Vec::new();
        std::mem::swap(&mut items, &mut self.items);
        let ghost key_text = key@;
        match found {
            Some(i) => {
                items.set(i, (key, value));
                proof {
                    let after = entries_of(items@);
                    assert(after =~= before.update(i as int, (key_text, value)));
                    lemma_replaced(before, i as int, value);
                }
            },
            None => {
                items.insert(at, (key, value));
                proof {
                    let after = entries_of(items@);
                    assert(after =~= before.insert(at as int, (key_text, value)));
                    lemma_inserted(before, at as int, key_text, value);
                }
            },
        }
        self.items = items;
    }

    /// Takes the entry with the key out of the map.
    pub fn remove(&mut self, key: &str) -> (value: Option<V>)
        ensures
            value is Some <==> old(self)@.dom().contains(key@),
            value matches Some(value) ==> value == old(self)@[key@],
            final(self)@ == old(self)@.remove(key@),
    {
        proof {
            use_type_invariant(&*self);
        }
        let ghost before = self.entries();
        match self.position(key) {
            Some(i) => {
                let mut items: Vec<(String, V)> = Vec::new();
                std::mem::swap(&mut items, &mut self.items);
                let item = items.remove(i);
                proof {
                    assert(entries_of(items@) =~= before.remove(i as int));
                    lemma_removed(before, i as int);
                }
                self.items = items;
                Some(item.1)
            },
            None => {
                proof {
                    assert(as_map(before).remove(key@) =~= as_map(before));
                }
                None
            },
        }
    }

    /// The values in the order of their keys.
    pub fn into_values(self) -> (values: Vec<V>)
        ensures
            ordered(self.entries()),
            values@ == self.entries().map_values(|entry: (Seq<char>, V)| entry.1),
    {
        proof {
            use_type_invariant(&self);
        }
        let ghost entries = self.entries();
        let mut values: Vec<V> = Vec::new();
        for item in it: self.items
            invariant
                entries == entries_of(it.seq()),
                values@.len() == it.index(),
                forall|i: int| 0 <= i < it.index() ==> values@[i] == entries[i].1,
        {
            values.push(item.1);
        }
        proof {
            assert(values@ =~= entries.map_values(|entry: (Seq<char>, V)| entry.1));
        }
        values
    }
}

impl<V: Clone> Clone for TextMap<V> {
    fn clone(&self) -> (copy: Self)
        ensures
            copy.entries().len() == self.entries().len(),
            forall|i: int|
                0 <= i < self.entries().len() ==> (#[trigger] copy.entries()[i]).0
                    == self.entries()[i].0 && cloned(self.entries()[i].1, copy.entries()[i].1),
    {
        proof {
            use_type_invariant(self);
        }
        let mut items: Vec<(String, V)> = Vec::new();
        let mut i: usize = 0;
        while i < self.items.len()
            invariant
                i <= self.items@.len(),
                items@.len() == i,
                forall|j: int|
                    0 <= j < i ==> (#[trigger] items@[j]).0@ == self.items@[j].0@ && cloned(
                        self.items@[j].1,
                        items@[j].1,
                    ),
            decreases self.items@.len() - i,
        {
            items.push((self.items[i].0.clone(), self.items[i].1.clone()));
            i = i + 1;
        }
        proof {
            let copy = entries_of(items@);
            assert forall|a: int, b: int| 0 <= a < b < copy.len() implies text::precedes(
                (#[trigger] copy[a]).0,
                (#[trigger] copy[b]).0,
            ) by {
                assert(copy[a].0 == self.entries()[a].0);
                assert(copy[b].0 == self.entries()[b].0);
            }
        }
        TextMap { items }
    }
}

proof fn lemma_replaced<V>(entries: Seq<(Seq<char>, V)>, i: int, value: V)
    requires
        ordered(entries),
        0 <= i < entries.len(),
    ensures
        ordered(entries.update(i, (entries[i].0, value))),
        as_map(entries.update(i, (entries[i].0, value))) == as_map(entries).insert(
            entries[i].0,
            value,
        ),
{
    let after = entries.update(i, (entries[i].0, value));
    let key = entries[i].0;
    assert(ordered(after)) by {
        assert forall|a: int, b: int| 0 <= a < b < after.len() implies text::precedes(
            (#[trigger] after[a]).0,
            (#[trigger] after[b]).0,
        ) by {
            assert(after[a].0 == entries[a].0);
            assert(after[b].0 == entries[b].0);
        }
    }
    assert forall|k: Seq<char>| has_key(after, k) == #[trigger] has_key(entries, k) by {
        if has_key(entries, k) {
            let j = key_index(entries, k);
            assert(after[j].0 == k);
        }
        if has_key(after, k) {
            let j = key_index(after, k);
            assert(entries[j].0 == k);
        }
    }
    assert(as_map(after) =~= as_map(entries).insert(key, value)) by {
        lemma_entry_in_map(entries, i);
        assert forall|k: Seq<char>| as_map(after).dom().contains(k) implies #[trigger] as_map(
            after,
        )[k] == as_map(entries).insert(key, value)[k] by {
            assert(has_key(entries, k));
            let j = key_index(entries, k);
            lemma_entry_in_map(entries, j);
            assert(after[j].0 == k);
            lemma_entry_in_map(after, j);
            if k == key {
                lemma_distinct_keys(entries, i, j);
            }
        }
    }
}

proof fn lemma_inserted<V>(entries: Seq<(Seq<char>, V)>, at: int, key: Seq<char>, value: V)
    requires
        ordered(entries),
        !has_key(entries, key),
        0 <= at <= entries.len(),
        forall|i: int| 0 <= i < at ==> text::precedes((#[trigger] entries[i]).0, key),
        forall|i: int|
            at <= i < entries.len() ==> !text::precedes((#[trigger] entries[i]).0, key),
    ensures
        ordered(entries.insert(at, (key, value))),
        as_map(entries.insert(at, (key, value))) == as_map(entries).insert(key, value),
{
    let after = entries.insert(at, (key, value));
    assert forall|i: int| at <= i < entries.len() implies text::precedes(
        key,
        (#[trigger] entries[i]).0,
    ) by {
        text::lemma_precedes_total(entries[i].0, key);
    }
    assert(ordered(after)) by {
        assert forall|a: int, b: int| 0 <= a < b < after.len() implies text::precedes(
            (#[trigger] after[a]).0,
            (#[trigger] after[b]).0,
        ) by {
            let a0 = if a < at {
                a
            } else {
                a - 1
            };
            let b0 = if b < at {
                b
            } else {
                b - 1
            };
            if a != at {
                assert(after[a] == entries[a0]);
            }
            if b != at {
                assert(after[b] == entries[b0]);
            }
        }
    }
    assert forall|k: Seq<char>| #[trigger] has_key(after, k) == (has_key(entries, k) || k == key) by {
        if has_key(entries, k) {
            let j = key_index(entries, k);
            assert(after[if j < at {
                j
            } else {
                j + 1
            }].0 == k);
        }
        if k == key {
            assert(after[at].0 == k);
        }
        if has_key(after, k) {
            let j = key_index(after, k);
            if j != at {
                assert(entries[if j < at {
                    j
                } else {
                    j - 1
                }].0 == k);
            }
        }
    }
    assert(as_map(after) =~= as_map(entries).insert(key, value)) by {
        assert(after[at] == (key, value));
        lemma_entry_in_map(after, at);
        assert forall|k: Seq<char>| as_map(after).dom().contains(k) implies #[trigger] as_map(
            after,
        )[k] == as_map(entries).insert(key, value)[k] by {
            assert(has_key(after, k));
            if k != key {
                let j = key_index(entries, k);
                lemma_entry_in_map(entries, j);
                let j1 = if j < at {
                    j
                } else {
                    j + 1
                };
                assert(after[j1] == entries[j]);
                lemma_entry_in_map(after, j1);
            }
        }
    }
}

proof fn lemma_removed<V>(entries: Seq<(Seq<char>, V)>, at: int)
    requires
        ordered(entries),
        0 <= at < entries.len(),
    ensures
        ordered(entries.remove(at)),
        as_map(entries.remove(at)) == as_map(entries).remove(entries[at].0),
{
    let after = entries.remove(at);
    let key = entries[at].0;
    assert(ordered(after)) by {
        assert forall|a: int, b: int| 0 <= a < b < after.len() implies text::precedes(
            (#[trigger] after[a]).0,
            (#[trigger] after[b]).0,
        ) by {
            let a0 = if a < at {
                a
            } else {
                a + 1
            };
            let b0 = if b < at {
                b
            } else {
                b + 1
            };
            assert(after[a] == entries[a0]);
            assert(after[b] == entries[b0]);
        }
    }
    assert forall|k: Seq<char>| #[trigger] has_key(after, k) == (has_key(entries, k) && k != key) by {
        if has_key(after, k) {
            let j = key_index(after, k);
            let j0 = if j < at {
                j
            } else {
                j + 1
            };
            assert(entries[j0].0 == k);
            if k == key {
                lemma_distinct_keys(entries, at, j0);
            }
        }
        if has_key(entries, k) && k != key {
            let j = key_index(entries, k);
            assert(after[if j < at {
                j
            } else {
                j - 1
            }].0 == k);
        }
    }
    assert(as_map(after) =~= as_map(entries).remove(key)) by {
        assert forall|k: Seq<char>| as_map(after).dom().contains(k) implies #[trigger] as_map(
            after,
        )[k] == as_map(entries).remove(key)[k] by {
            assert(has_key(after, k));
            let j = key_index(entries, k);
            lemma_entry_in_map(entries, j);
            let j1 = if j < at {
                j
            } else {
                j - 1
            };
            assert(after[j1] == entries[j]);
            lemma_entry_in_map(after, j1);
        }
    }
}

} // verus!
