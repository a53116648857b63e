use vstd::prelude::*;

use vstd::seq_lib::lemma_multiset_commutative;

use crate::engine::{
    all_fit, ffd_spec, fit_index, lemma_fit_index_bounds, lemma_pack_all_step,
    lemma_place_item_at, lemma_sort_all_fit, pack_all, place_item,
};
use crate::sizes::{lemma_sum_sizes_push, sum_sizes};
use crate::sort::{lemma_sort_desc_multiset, sort_desc};
use crate::Sizeable;

verus! {

/// One placement step keeps every bin within capacity.
pub proof fn lemma_place_item_capacity<T: Sizeable>(bins: Seq<Seq<T>>, x: T, cap: usize)
    requires
        x.spec_size() <= cap,
        forall|j: int| 0 <= j < bins.len() ==> sum_sizes(#[trigger] bins[j]) <= cap,
    ensures
        forall|j: int|
            0 <= j < place_item(bins, x, cap).len() ==> sum_sizes(
                #[trigger] place_item(bins, x, cap)[j],
            ) <= cap,
{
    lemma_fit_index_bounds(bins, x.spec_size() as int, cap);
    lemma_place_item_at(bins, x, cap);
    let j = fit_index(bins, x.spec_size() as int, cap);
    let r = place_item(bins, x, cap);
    assert(seq![x].drop_last() =~= Seq::<T>::empty());
    assert(sum_sizes(Seq::<T>::empty()) == 0);
    assert(seq![x].last() == x);
    assert(sum_sizes(seq![x]) == x.spec_size());
    if j < bins.len() {
        lemma_sum_sizes_push(bins[j], x);
    }
    assert forall|k: int| 0 <= k < r.len() implies sum_sizes(#[trigger] r[k]) <= cap by {
        if j < bins.len() {
            if k != j {
                assert(r[k] == bins[k]);
            }
        } else {
            if k < bins.len() {
                assert(r[k] == bins[k]);
            } else {
                assert(r[k] == seq![x]);
            }
        }
    }
}

pub proof fn lemma_pack_all_capacity<T: Sizeable>(items: Seq<T>, cap: usize)
    requires
        all_fit(items, cap),
    ensures
        forall|j: int|
            0 <= j < pack_all(items, cap).len() ==> sum_sizes(
                #[trigger] pack_all(items, cap)[j],
            ) <= cap,
    decreases items.len(),
{
    if items.len() > 0 {
        let d = items.drop_last();
        assert forall|k: int| 0 <= k < d.len() implies (#[trigger] d[k]).spec_size() <= cap by {
            assert(d[k] == items[k]);
            assert(items[k].spec_size() <= cap);
        }
        lemma_pack_all_capacity(d, cap);
        assert(items[items.len() - 1] == items.last());
        lemma_place_item_capacity(pack_all(d, cap), items.last(), cap);
    }
}

/// Capacity invariant: in every packing of items that fit, every bin's
/// total size stays within the capacity.
pub proof fn lemma_capacity_invariant<T: Sizeable>(cap: usize, items: Seq<T>)
    requires
        all_fit(items, cap),
    ensures
        forall|j: int|
            0 <= j < ffd_spec(cap, items).len() ==> sum_sizes(
                #[trigger] ffd_spec(cap, items)[j],
            ) <= cap,
{
    lemma_sort_all_fit(items, cap);
    lemma_pack_all_capacity(sort_desc(items), cap);
}

/// One placement step conserves items: exactly the placed item is added.
pub proof fn lemma_place_item_conservation<T: Sizeable>(bins: Seq<Seq<T>>, x: T, cap: usize)
    ensures
        place_item(bins, x, cap).flatten().to_multiset() == bins.flatten().to_multiset().insert(
            x,
        ),
    decreases bins.len(),
{
    broadcast use vstd::multiset::group_multiset_axioms;

    let r = place_item(bins, x, cap);
    if bins.len() == 0 {
        assert(r == seq![seq![x]]);
        assert(r.first() == seq![x]);
        assert(r.drop_first() =~= Seq::<Seq<T>>::empty());
        assert(Seq::<Seq<T>>::empty().flatten() == Seq::<T>::empty());
        assert(r.flatten() == r.first() + r.drop_first().flatten());
        assert(r.flatten() =~= seq![x]);
        assert(seq![x] =~= Seq::<T>::empty().push(x));
        Seq::<T>::empty().to_multiset_ensures();
        assert(bins.flatten() == Seq::<T>::empty());
    } else if sum_sizes(bins.first()) + x.spec_size() <= cap {
        let h = bins.first();
        let rest = bins.drop_first();
        assert(r == seq![h.push(x)] + rest);
        assert(r.first() == h.push(x));
        assert(r.drop_first() =~= rest);
        assert(r.flatten() == h.push(x) + rest.flatten());
        assert(bins.flatten() == h + rest.flatten());
        lemma_multiset_commutative(h.push(x), rest.flatten());
        lemma_multiset_commutative(h, rest.flatten());
        h.to_multiset_ensures();
        assert(h.push(x).to_multiset() =~= h.to_multiset().insert(x));
        assert(h.to_multiset().insert(x).add(rest.flatten().to_multiset()) =~= h.to_multiset().add(
            rest.flatten().to_multiset(),
        ).insert(x));
    } else {
        let h = bins.first();
        let rest = bins.drop_first();
        lemma_place_item_conservation(rest, x, cap);
        assert(r == seq![h] + place_item(rest, x, cap));
        assert(r.first() == h);
        assert(r.drop_first() =~= place_item(rest, x, cap));
        assert(r.flatten() == h + place_item(rest, x, cap).flatten());
        assert(bins.flatten() == h + rest.flatten());
        lemma_multiset_commutative(h, place_item(rest, x, cap).flatten());
        lemma_multiset_commutative(h, rest.flatten());
        assert(h.to_multiset().add(rest.flatten().to_multiset().insert(x)) =~= h.to_multiset().add(
            rest.flatten().to_multiset(),
        ).insert(x));
    }
}

pub proof fn lemma_pack_all_conservation<T: Sizeable>(items: Seq<T>, cap: usize)
    ensures
        pack_all(items, cap).flatten().to_multiset() == items.to_multiset(),
    decreases items.len(),
{
    if items.len() == 0 {
        assert(pack_all(items, cap).flatten() == Seq::<T>::empty());
        assert(items =~= Seq::<T>::empty());
    } else {
        let d = items.drop_last();
        lemma_pack_all_conservation(d, cap);
        lemma_place_item_conservation(pack_all(d, cap), items.last(), cap);
        d.to_multiset_ensures();
        assert(d.push(items.last()) =~= items);
        assert(d.push(items.last()).to_multiset() =~= d.to_multiset().insert(items.last()));
        assert(items.to_multiset() == d.push(items.last()).to_multiset());
    }
}

/// Conservation: the bins of a packing hold, as a multiset, exactly the
/// input items — none lost, none duplicated, none invented.
pub proof fn lemma_conservation<T: Sizeable>(cap: usize, items: Seq<T>)
    ensures
        ffd_spec(cap, items).flatten().to_multiset() == items.to_multiset(),
{
    lemma_sort_desc_multiset(items);
    lemma_pack_all_conservation(sort_desc(items), cap);
}

/// First-fit optimality of the scan: at the moment each item was placed, no
/// bin earlier in creation order than its bin had room for it; the item
/// joined the bin at the fit index, or opened a new bin when none had room.
pub proof fn lemma_first_fit<T: Sizeable>(cap: usize, items: Seq<T>, i: int)
    requires
        0 <= i < sort_desc(items).len(),
    ensures
        ({
            let s = sort_desc(items);
            let bins = pack_all(s.take(i), cap);
            let j = fit_index(bins, s[i].spec_size() as int, cap);
            &&& 0 <= j <= bins.len()
            &&& forall|k: int|
                0 <= k < j ==> sum_sizes(#[trigger] bins[k]) + s[i].spec_size() > cap
            &&& j < bins.len() ==> sum_sizes(bins[j]) + s[i].spec_size() <= cap
            &&& pack_all(s.take(i + 1), cap) == (if j < bins.len() {
                bins.update(j, bins[j].push(s[i]))
            } else {
                bins.push(seq![s[i]])
            })
        }),
{
    let s = sort_desc(items);
    lemma_pack_all_step(s, i, cap);
    lemma_fit_index_bounds(pack_all(s.take(i), cap), s[i].spec_size() as int, cap);
    lemma_place_item_at(pack_all(s.take(i), cap), s[i], cap);
}

/// Determinism: the packing is a function of the capacity and the input
/// sequence alone — equal runs give equal bin sequences.
pub proof fn lemma_deterministic<T: Sizeable>(
    cap1: usize,
    cap2: usize,
    items1: Seq<T>,
    items2: Seq<T>,
)
    requires
        cap1 == cap2,
        items1 == items2,
    ensures
        ffd_spec(cap1, items1) == ffd_spec(cap2, items2),
{
}

/// An empty input packs to an empty bin sequence, whatever the capacity.
pub proof fn lemma_pack_empty<T: Sizeable>(cap: usize)
    ensures
        ffd_spec(cap, Seq::<T>::empty()) == Seq::<Seq<T>>::empty(),
{
}

} // verus!

