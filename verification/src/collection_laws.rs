//! What maps by text and sorted lists keep.

use crate::ordering;
use crate::ordering::Ranked;
use crate::text;
use crate::text_map;
use crate::text_map::TextMap;
use vstd::prelude::*;

verus! {

/// A new map has no key.
pub proof fn lemma_new_map<V>(map: TextMap<V>, key: &str, value: Option<&V>, empty: bool)
    requires
        call_ensures(TextMap::<V>::new, (), map),
        call_ensures(TextMap::<V>::get, (&map, key), value),
        call_ensures(TextMap::<V>::is_empty, (&map,), empty),
    ensures
        value is None,
        empty,
{
}

/// A key has the value that it was given last, and every other key the one that it had.
pub proof fn lemma_value_that_was_given<V>(
    map: &mut TextMap<V>,
    key: String,
    value: V,
    asked: &str,
    before: Option<&V>,
    after: Option<&V>,
)
    requires
        call_ensures(TextMap::<V>::insert, (map, key, value), ()),
        call_ensures(TextMap::<V>::get, (&*old(map), asked), before),
        call_ensures(TextMap::<V>::get, (&*final(map), asked), after),
    ensures
        asked@ == key@ ==> (after matches Some(found) && *found == value),
        asked@ != key@ ==> after == before,
{
}

/// A key that was taken out has no value any more, and the one that it had is given back; every
/// other key has the value that it had.
pub proof fn lemma_value_that_was_taken_out<V>(
    map: &mut TextMap<V>,
    key: &str,
    taken: Option<V>,
    asked: &str,
    before: Option<&V>,
    after: Option<&V>,
)
    requires
        call_ensures(TextMap::<V>::remove, (map, key), taken),
        call_ensures(TextMap::<V>::get, (&*old(map), asked), before),
        call_ensures(TextMap::<V>::get, (&*final(map), asked), after),
    ensures
        asked@ == key@ ==> after is None && (taken is Some <==> before is Some) && (
        taken matches Some(value) ==> (before matches Some(found) && *found == value)),
        asked@ != key@ ==> after == before,
{
}

/// The entries of a map come in the order of their keys, and each key is found with the value of its
/// entry.
pub proof fn lemma_entries_in_order<V>(
    map: &TextMap<V>,
    n: usize,
    i: usize,
    j: usize,
    key: &String,
    other: &String,
    value: &V,
    asked: &str,
    found: Option<&V>,
)
    requires
        call_ensures(TextMap::<V>::len, (map,), n),
        i < j < n,
        call_ensures(TextMap::<V>::key_at, (map, i), key),
        call_ensures(TextMap::<V>::key_at, (map, j), other),
        call_ensures(TextMap::<V>::value_at, (map, i), value),
        asked@ == key@,
        call_ensures(TextMap::<V>::get, (map, asked), found),
    ensures
        text::precedes(key@, other@),
        found matches Some(found) && *found == *value,
{
    text_map::lemma_entry_in_map(map.entries(), i as int);
}

/// A key that is found is that of an entry.
pub proof fn lemma_found_keys_are_of_entries<V>(
    map: &TextMap<V>,
    n: usize,
    asked: &str,
    value: &V,
) -> (i: int)
    requires
        call_ensures(TextMap::<V>::len, (map,), n),
        call_ensures(TextMap::<V>::get, (map, asked), Some(value)),
    ensures
        0 <= i < n,
        map.entries()[i].0 == asked@,
        map.entries()[i].1 == *value,
{
    let entries = map.entries();
    assert(text_map::has_key(entries, asked@));
    let i = text_map::key_index(entries, asked@);
    text_map::lemma_entry_in_map(entries, i);
    i
}

/// A map is empty where it has no entry, and its values come in the order of its entries.
pub proof fn lemma_values_of_a_map<V>(
    map: TextMap<V>,
    n: usize,
    empty: bool,
    values: Vec<V>,
    i: usize,
    value: &V,
)
    requires
        call_ensures(TextMap::<V>::len, (&map,), n),
        call_ensures(TextMap::<V>::is_empty, (&map,), empty),
        call_ensures(TextMap::<V>::into_values, (map,), values),
        i < n ==> call_ensures(TextMap::<V>::value_at, (&map, i), value),
    ensures
        empty <==> n == 0,
        values@.len() == n,
        i < n ==> values@[i as int] == *value,
{
}

/// Sorted values are the same, each as often, in the order of their ranks; those of one rank keep
/// their order.
pub proof fn lemma_sorted_by_rank<T: Ranked>(items: Vec<T>, sorted: Vec<T>, item: T)
    requires
        call_ensures(ordering::sort_by_rank::<T>, (items,), sorted),
    ensures
        sorted@.to_multiset() == items@.to_multiset(),
        forall|i: int, j: int|
            0 <= i < j < sorted@.len() ==> (#[trigger] sorted@[i]).ranks_up_to(
                #[trigger] sorted@[j],
            ),
        sorted@.filter(|other: T| other.ranks_up_to(item) && item.ranks_up_to(other))
            == items@.filter(|other: T| other.ranks_up_to(item) && item.ranks_up_to(other)),
{
    let same = |other: T| other.ranks_up_to(item) && item.ranks_up_to(other);
    let peer = |other: T| ordering::same_rank(other, item);
    assert(ordering::peers(sorted@, item) == ordering::peers(items@, item));
    lemma_same_filter(sorted@, same, peer);
    lemma_same_filter(items@, same, peer);
}

proof fn lemma_same_filter<T>(items: Seq<T>, a: spec_fn(T) -> bool, b: spec_fn(T) -> bool)
    requires
        forall|item: T| #[trigger] a(item) == b(item),
    ensures
        items.filter(a) == items.filter(b),
    decreases items.len(),
{
    reveal(Seq::filter);
    if items.len() > 0 {
        lemma_same_filter(items.drop_last(), a, b);
        assert(a(items.last()) == b(items.last()));
    }
}

/// Two texts are the same where all their characters are.
pub proof fn lemma_same_texts(a: &str, b: &str, same: bool)
    requires
        call_ensures(text::same_text, (a, b), same),
    ensures
        same <==> a@.len() == b@.len() && forall|i: int|
            0 <= i < a@.len() ==> #[trigger] a@[i] == b@[i],
{
    if a@.len() == b@.len() && forall|i: int| 0 <= i < a@.len() ==> #[trigger] a@[i] == b@[i] {
        assert(a@ =~= b@);
    }
}

/// Those that are of one rank are the same after a sort, in the same order.
pub(crate) proof fn lemma_one_rank<T: Ranked>(
    sorted: Seq<T>,
    items: Seq<T>,
    item: T,
    same: spec_fn(T) -> bool,
)
    requires
        ordering::is_stable_sort(sorted, items),
        forall|other: T| #[trigger] same(other) == ordering::same_rank(other, item),
    ensures
        sorted.filter(same) == items.filter(same),
{
    let peer = |other: T| ordering::same_rank(other, item);
    assert(ordering::peers(sorted, item) == ordering::peers(items, item));
    lemma_same_filter(sorted, same, peer);
    lemma_same_filter(items, same, peer);
}

} // verus!
