//! Stable sorting of values by a rank.

use vstd::prelude::*;

verus! {

/// Values in a total order of ranks; different values may have the same rank.
pub trait Ranked: Sized {
    /// Whether this value's rank is at most that of `other`.
    spec fn ranks_up_to(self, other: Self) -> bool;

    /// Whether this value's rank is at most that of `other`.
    fn is_up_to(&self, other: &Self) -> (up_to: bool)
        ensures
            up_to == self.ranks_up_to(*other),
    ;

    proof fn ranks_total(a: Self, b: Self)
        ensures
            Self::ranks_up_to(a, b) || Self::ranks_up_to(b, a),
    ;

    proof fn ranks_transitive(a: Self, b: Self, c: Self)
        requires
            Self::ranks_up_to(a, b),
            Self::ranks_up_to(b, c),
        ensures
            Self::ranks_up_to(a, c),
    ;
}

/// Whether two values have the same rank.
pub open spec fn same_rank<T: Ranked>(a: T, b: T) -> bool {
    a.ranks_up_to(b) && b.ranks_up_to(a)
}

/// Whether ranks never go down along a list.
pub open spec fn in_rank_order<T: Ranked>(items: Seq<T>) -> bool {
    forall|i: int, j: int|
        0 <= i < j < items.len() ==> (#[trigger] items[i]).ranks_up_to(#[trigger] items[j])
}

/// The values of a list that have the rank of `item`, in the order of the list.
pub open spec fn peers<T: Ranked>(items: Seq<T>, item: T) -> Seq<T> {
    items.filter(|other: T| same_rank(other, item))
}

/// Whether `sorted` holds the values of `items` in the order of their ranks, and those of one rank
/// in the order of `items`.
pub open spec fn is_stable_sort<T: Ranked>(sorted: Seq<T>, items: Seq<T>) -> bool {
    &&& in_rank_order(sorted)
    &&& sorted.to_multiset() == items.to_multiset()
    &&& forall|item: T| #[trigger] peers(sorted, item) == peers(items, item)
}

/// The place of `item` before the values of its rank or a higher one.
pub(crate) fn place<T: Ranked>(sorted: &Vec<T>, item: &T) -> (at: usize)
    requires
        in_rank_order(sorted@),
    ensures
        at <= sorted@.len(),
        forall|i: int| 0 <= i < at ==> !item.ranks_up_to(#[trigger] sorted@[i]),
        forall|i: int| at <= i < sorted@.len() ==> item.ranks_up_to(#[trigger] sorted@[i]),
{
    let mut low: usize = 0;
    let mut high: usize = sorted.len();
    while low < high
        invariant
            low <= high <= sorted@.len(),
            in_rank_order(sorted@),
            forall|i: int| 0 <= i < low ==> !item.ranks_up_to(#[trigger] sorted@[i]),
            forall|i: int| high <= i < sorted@.len() ==> item.ranks_up_to(#[trigger] sorted@[i]),
        decreases high - low,
    {
        let middle: usize = low + (high - low) / 2;
        let ghost pivot = sorted@[middle as int];
        if item.is_up_to(&sorted[middle]) {
            proof {
                assert forall|i: int| middle <= i < sorted@.len() implies item.ranks_up_to(
                    #[trigger] sorted@[i],
                ) by {
                    if i > middle {
                        T::ranks_transitive(*item, pivot, sorted@[i]);
                    }
                }
            }
            high = middle;
        } else {
            proof {
                assert forall|i: int| 0 <= i < middle + 1 implies !item.ranks_up_to(
                    #[trigger] sorted@[i],
                ) by {
                    if i < middle && item.ranks_up_to(sorted@[i]) {
                        T::ranks_transitive(*item, sorted@[i], pivot);
                    }
                }
            }
            low = middle + 1;
        }
    }
    low
}

/// Sorts values by rank; those of one rank keep their order.
pub fn sort_by_rank<T: Ranked>(items: Vec<T>) -> (sorted: Vec<T>)
    ensures
        is_stable_sort(sorted@, items@),
{
    let ghost all = items@;
    let mut rest = items;
    let mut sorted: Vec<T> = Vec::new();
    proof {
        assert(all.skip(all.len() as int) =~= Seq::<T>::empty());
    }
    while rest.len() > 0
        invariant
            rest@.len() <= all.len(),
            rest@ == all.take(rest@.len() as int),
            is_stable_sort(sorted@, all.skip(rest@.len() as int)),
        decreases rest@.len(),
    {
        let ghost n = rest@.len() as int;
        match rest.pop() {
            Some(item) => {
                proof {
                    assert(all.skip(n - 1) =~= seq![item] + all.skip(n));
                }
                let ghost before = sorted@;
                let at = place(&sorted, &item);
                sorted.insert(at, item);
                proof {
                    lemma_placed(before, at as int, item, all.skip(n));
                    assert(rest@ =~= all.take(n - 1));
                }
            },
            None => {
                return sorted;
            },
        }
    }
    proof {
        assert(all.skip(0) =~= all);
    }
    sorted
}

proof fn lemma_placed<T: Ranked>(sorted: Seq<T>, at: int, item: T, items: Seq<T>)
    requires
        is_stable_sort(sorted, items),
        0 <= at <= sorted.len(),
        forall|i: int| 0 <= i < at ==> !item.ranks_up_to(#[trigger] sorted[i]),
        forall|i: int| at <= i < sorted.len() ==> item.ranks_up_to(#[trigger] sorted[i]),
    ensures
        is_stable_sort(sorted.insert(at, item), seq![item] + items),
{
    let after = sorted.insert(at, item);
    assert(in_rank_order(after)) by {
        assert forall|i: int, j: int| 0 <= i < j < after.len() implies (
        #[trigger] after[i]).ranks_up_to(#[trigger] after[j]) by {
            if i < at {
                T::ranks_total(item, sorted[i]);
            }
        }
    }
    assert(after.to_multiset() == (seq![item] + items).to_multiset()) by {
        broadcast use vstd::seq_lib::group_to_multiset_ensures;

        assert(after =~= sorted.take(at) + (seq![item] + sorted.skip(at)));
        assert(sorted =~= sorted.take(at) + sorted.skip(at));
        vstd::seq_lib::lemma_multiset_commutative(sorted.take(at), seq![item] + sorted.skip(at));
        vstd::seq_lib::lemma_multiset_commutative(seq![item], sorted.skip(at));
        vstd::seq_lib::lemma_multiset_commutative(sorted.take(at), sorted.skip(at));
        vstd::seq_lib::lemma_multiset_commutative(seq![item], items);
        assert(after.to_multiset() =~= (seq![item] + items).to_multiset());
    }
    assert forall|one: T| #[trigger] peers(after, one) == peers(seq![item] + items, one) by {
        let keep = |other: T| same_rank(other, one);
        assert(after =~= sorted.take(at) + (seq![item] + sorted.skip(at)));
        assert(sorted =~= sorted.take(at) + sorted.skip(at));
        Seq::filter_distributes_over_add(sorted.take(at), seq![item] + sorted.skip(at), keep);
        Seq::filter_distributes_over_add(seq![item], sorted.skip(at), keep);
        Seq::filter_distributes_over_add(sorted.take(at), sorted.skip(at), keep);
        Seq::filter_distributes_over_add(seq![item], items, keep);
        assert(peers(sorted, one) == peers(items, one));
        if keep(item) {
            assert forall|i: int| 0 <= i < sorted.take(at).len() implies !keep(
                #[trigger] sorted.take(at)[i],
            ) by {
                if keep(sorted[i]) {
                    T::ranks_transitive(item, one, sorted[i]);
                }
            }
            lemma_none_kept(sorted.take(at), keep);
        } else {
            assert forall|i: int| 0 <= i < seq![item].len() implies !keep(
                #[trigger] seq![item][i],
            ) by {}
            lemma_none_kept(seq![item], keep);
        }
        assert(peers(after, one) =~= peers(seq![item] + items, one));
    }
}

proof fn lemma_none_kept<T>(items: Seq<T>, keep: spec_fn(T) -> bool)
    requires
        forall|i: int| 0 <= i < items.len() ==> !keep(#[trigger] items[i]),
    ensures
        items.filter(keep) == Seq::<T>::empty(),
    decreases items.len(),
{
    reveal(Seq::filter);
    if items.len() > 0 {
        assert forall|i: int| 0 <= i < items.drop_last().len() implies !keep(
            #[trigger] items.drop_last()[i],
        ) by {
            assert(items[i] == items.drop_last()[i]);
        }
        lemma_none_kept(items.drop_last(), keep);
    }
}

proof fn lemma_peers_of_rest<T: Ranked>(items: Seq<T>, item: T)
    requires
        items.len() > 0,
    ensures
        peers(items, item) == if same_rank(items[0], item) {
            seq![items[0]] + peers(items.drop_first(), item)
        } else {
            peers(items.drop_first(), item)
        },
{
    let keep = |other: T| same_rank(other, item);
    let first = seq![items[0]];
    assert(items =~= first + items.drop_first());
    Seq::filter_distributes_over_add(first, items.drop_first(), keep);
    reveal(Seq::filter);
    assert(first.drop_last() =~= Seq::<T>::empty());
    assert(first.filter(keep) =~= if same_rank(items[0], item) {
        first
    } else {
        Seq::empty()
    }) by {
        reveal_with_fuel(Seq::filter, 2);
    }
    assert(Seq::<T>::empty() + peers(items.drop_first(), item) =~= peers(items.drop_first(), item));
}

/// Values can be sorted by rank in one way only.
pub proof fn lemma_one_sort<T: Ranked>(a: Seq<T>, b: Seq<T>, items: Seq<T>)
    requires
        is_stable_sort(a, items),
        is_stable_sort(b, items),
    ensures
        a == b,
{
    assert forall|item: T| #[trigger] peers(a, item) == peers(b, item) by {
        assert(peers(a, item) == peers(items, item));
        assert(peers(b, item) == peers(items, item));
    }
    lemma_same_sort(a, b);
}

proof fn lemma_same_sort<T: Ranked>(a: Seq<T>, b: Seq<T>)
    requires
        in_rank_order(a),
        in_rank_order(b),
        a.to_multiset() == b.to_multiset(),
        forall|item: T| #[trigger] peers(a, item) == peers(b, item),
    ensures
        a == b,
    decreases a.len(),
{
    broadcast use vstd::seq_lib::group_to_multiset_ensures;

    assert(a.to_multiset().len() == a.len());
    assert(b.to_multiset().len() == b.len());
    if a.len() == 0 {
        assert(a =~= b);
    } else {
        let (x, y) = (a[0], b[0]);
        assert(b.contains(x)) by {
            assert(a.contains(x));
            assert(a.to_multiset().count(x) > 0);
        }
        assert(a.contains(y)) by {
            assert(b.contains(y));
            assert(b.to_multiset().count(y) > 0);
        }
        let i = choose|i: int| 0 <= i < b.len() && b[i] == x;
        let j = choose|j: int| 0 <= j < a.len() && a[j] == y;
        T::ranks_total(x, x);
        T::ranks_total(y, y);
        assert(y.ranks_up_to(x));
        assert(x.ranks_up_to(y));
        lemma_peers_of_rest(a, x);
        lemma_peers_of_rest(b, x);
        assert(peers(a, x) == peers(b, x));
        assert((seq![x] + peers(a.drop_first(), x))[0] == (seq![y] + peers(b.drop_first(), x))[0]);
        assert(x == y);
        let (p, q) = (a.drop_first(), b.drop_first());
        assert forall|item: T| #[trigger] peers(p, item) == peers(q, item) by {
            lemma_peers_of_rest(a, item);
            lemma_peers_of_rest(b, item);
            assert(peers(a, item) == peers(b, item));
            if same_rank(x, item) {
                assert(peers(p, item) =~= peers(a, item).drop_first());
                assert(peers(q, item) =~= peers(b, item).drop_first());
            }
        }
        assert(in_rank_order(p)) by {
            assert forall|i: int, j: int| 0 <= i < j < p.len() implies (
            #[trigger] p[i]).ranks_up_to(#[trigger] p[j]) by {
                assert(a[i + 1].ranks_up_to(a[j + 1]));
            }
        }
        assert(in_rank_order(q)) by {
            assert forall|i: int, j: int| 0 <= i < j < q.len() implies (
            #[trigger] q[i]).ranks_up_to(#[trigger] q[j]) by {
                assert(b[i + 1].ranks_up_to(b[j + 1]));
            }
        }
        assert(a.remove(0) =~= p);
        assert(b.remove(0) =~= q);
        assert(p.to_multiset() =~= q.to_multiset());
        lemma_same_sort(p, q);
        assert(a =~= seq![x] + p);
        assert(b =~= seq![y] + q);
    }
}

} // verus!
