use vstd::prelude::*;

use crate::bin::Bin;
use crate::sizes::sum_sizes;
use crate::sort::{lemma_sort_desc_multiset, sort_by_size_desc, sort_desc};
use crate::Sizeable;

verus! {

/// Every item fits an empty bin of the given capacity.
pub open spec fn all_fit<T: Sizeable>(items: Seq<T>, cap: usize) -> bool {
    forall|i: int| 0 <= i < items.len() ==> (#[trigger] items[i]).spec_size() <= cap
}

/// The positions, in increasing order, of the items too large for the
/// capacity.
pub open spec fn oversized_ix<T: Sizeable>(items: Seq<T>, cap: usize) -> Seq<int>
    decreases items.len(),
{
    if items.len() == 0 {
        Seq::empty()
    } else if items.last().spec_size() > cap {
        oversized_ix(items.drop_last(), cap).push(items.len() - 1)
    } else {
        oversized_ix(items.drop_last(), cap)
    }
}

/// The first bin, in creation order, with room for an item of size `xsz`;
/// the number of bins when none has room.
pub open spec fn fit_index<T: Sizeable>(bins: Seq<Seq<T>>, xsz: int, cap: usize) -> int
    decreases bins.len(),
{
    if bins.len() == 0 {
        0
    } else if sum_sizes(bins.first()) + xsz <= cap {
        0
    } else {
        1 + fit_index(bins.drop_first(), xsz, cap)
    }
}

/// One first-fit step: the item joins the first bin with room, or opens a
/// new bin at the end when no existing bin has room.
pub open spec fn place_item<T: Sizeable>(bins: Seq<Seq<T>>, x: T, cap: usize) -> Seq<Seq<T>>
    decreases bins.len(),
{
    if bins.len() == 0 {
        seq![seq![x]]
    } else if sum_sizes(bins.first()) + x.spec_size() <= cap {
        seq![bins.first().push(x)] + bins.drop_first()
    } else {
        seq![bins.first()] + place_item(bins.drop_first(), x, cap)
    }
}

/// First-fit over a whole sequence: each item in order, scanned against the
/// bins created so far.
pub open spec fn pack_all<T: Sizeable>(items: Seq<T>, cap: usize) -> Seq<Seq<T>>
    decreases items.len(),
{
    if items.len() == 0 {
        Seq::empty()
    } else {
        place_item(pack_all(items.drop_last(), cap), items.last(), cap)
    }
}

/// First-fit-decreasing: the stable descending sort of the input, packed
/// first-fit in order. This is exactly what `pack` returns on fitting items.
pub open spec fn ffd_spec<T: Sizeable>(cap: usize, items: Seq<T>) -> Seq<Seq<T>> {
    pack_all(sort_desc(items), cap)
}

/// The contents of each bin, in bin creation order.
pub open spec fn bins_model<T: Sizeable>(bins: Seq<Bin<T>>) -> Seq<Seq<T>> {
    bins.map(|i: int, b: Bin<T>| b.spec_contents())
}

/// All bins valid, with the given fixed capacity.
pub open spec fn bins_wf<T: Sizeable>(bins: Seq<Bin<T>>, cap: usize) -> bool {
    forall|j: int|
        0 <= j < bins.len() ==> (#[trigger] bins[j]).inv() && bins[j].spec_capacity() == cap
}

pub proof fn lemma_fit_index_bounds<T: Sizeable>(bins: Seq<Seq<T>>, xsz: int, cap: usize)
    ensures
        0 <= fit_index(bins, xsz, cap) <= bins.len(),
        forall|k: int|
            0 <= k < fit_index(bins, xsz, cap) ==> sum_sizes(#[trigger] bins[k]) + xsz > cap,
        fit_index(bins, xsz, cap) < bins.len() ==> sum_sizes(bins[fit_index(bins, xsz, cap)])
            + xsz <= cap,
    decreases bins.len(),
{
    if bins.len() > 0 && !(sum_sizes(bins.first()) + xsz <= cap) {
        let d = bins.drop_first();
        lemma_fit_index_bounds(d, xsz, cap);
        let j = fit_index(bins, xsz, cap);
        assert forall|k: int| 0 <= k < j implies sum_sizes(#[trigger] bins[k]) + xsz > cap by {
            if k >= 1 {
                assert(bins[k] == d[k - 1]);
            } else {
                assert(bins[0] == bins.first());
            }
        }
        if j < bins.len() {
            assert(bins[j] == d[j - 1]);
        }
    }
}

/// The fit index is the one position preceded only by bins without room and
/// itself with room (or the end).
pub proof fn lemma_fit_index_unique<T: Sizeable>(bins: Seq<Seq<T>>, xsz: int, cap: usize, p: int)
    requires
        0 <= p <= bins.len(),
        forall|k: int| 0 <= k < p ==> sum_sizes(#[trigger] bins[k]) + xsz > cap,
        p < bins.len() ==> sum_sizes(bins[p]) + xsz <= cap,
    ensures
        p == fit_index(bins, xsz, cap),
    decreases bins.len(),
{
    if bins.len() == 0 {
    } else if sum_sizes(bins.first()) + xsz <= cap {
        assert(bins[0] == bins.first());
        assert(p == 0) by {
            if p > 0 {
                assert(sum_sizes(bins[0]) + xsz > cap);
            }
        }
    } else {
        assert(bins[0] == bins.first());
        assert(p >= 1) by {
            if p == 0 {
                assert(sum_sizes(bins[0]) + xsz <= cap);
            }
        }
        let d = bins.drop_first();
        assert forall|k: int| 0 <= k < p - 1 implies sum_sizes(#[trigger] d[k]) + xsz > cap by {
            assert(d[k] == bins[k + 1]);
        }
        if p - 1 < d.len() {
            assert(d[p - 1] == bins[p]);
        }
        lemma_fit_index_unique(d, xsz, cap, p - 1);
    }
}

/// A placement step is an update at the fit index, or a new bin at the end.
pub proof fn lemma_place_item_at<T: Sizeable>(bins: Seq<Seq<T>>, x: T, cap: usize)
    ensures
        ({
            let j = fit_index(bins, x.spec_size() as int, cap);
            place_item(bins, x, cap) == (if j < bins.len() {
                bins.update(j, bins[j].push(x))
            } else {
                bins.push(seq![x])
            })
        }),
    decreases bins.len(),
{
    let j = fit_index(bins, x.spec_size() as int, cap);
    if bins.len() == 0 {
        assert(place_item(bins, x, cap) =~= bins.push(seq![x]));
    } else if sum_sizes(bins.first()) + x.spec_size() <= cap {
        assert(bins[0] == bins.first());
        assert(j == 0);
        assert(seq![bins.first().push(x)] + bins.drop_first() =~= bins.update(
            0,
            bins[0].push(x),
        ));
    } else {
        let d = bins.drop_first();
        lemma_place_item_at(d, x, cap);
        lemma_fit_index_bounds(d, x.spec_size() as int, cap);
        let jd = fit_index(d, x.spec_size() as int, cap);
        assert(j == 1 + jd);
        if jd < d.len() {
            assert(bins[j] == d[jd]);
            assert(seq![bins.first()] + d.update(jd, d[jd].push(x)) =~= bins.update(
                j,
                bins[j].push(x),
            ));
        } else {
            assert(seq![bins.first()] + d.push(seq![x]) =~= bins.push(seq![x]));
        }
    }
}

/// Packing one more item is one placement step on the bins so far.
pub proof fn lemma_pack_all_step<T: Sizeable>(s: Seq<T>, i: int, cap: usize)
    requires
        0 <= i < s.len(),
    ensures
        pack_all(s.take(i + 1), cap) == place_item(pack_all(s.take(i), cap), s[i], cap),
{
    let t = s.take(i + 1);
    assert(t.len() == i + 1);
    assert(t.drop_last() =~= s.take(i));
    assert(t.last() == s[i]);
}

pub proof fn lemma_oversized_step<T: Sizeable>(s: Seq<T>, i: int, cap: usize)
    requires
        0 <= i < s.len(),
    ensures
        oversized_ix(s.take(i + 1), cap) == (if s[i].spec_size() > cap {
            oversized_ix(s.take(i), cap).push(i)
        } else {
            oversized_ix(s.take(i), cap)
        }),
{
    let t = s.take(i + 1);
    assert(t.len() == i + 1);
    assert(t.drop_last() =~= s.take(i));
    assert(t.last() == s[i]);
}

/// No oversized positions exactly when every item fits.
pub proof fn lemma_oversized_empty_iff<T: Sizeable>(s: Seq<T>, cap: usize)
    ensures
        oversized_ix(s, cap).len() == 0 <==> all_fit(s, cap),
    decreases s.len(),
{
    if s.len() > 0 {
        let d = s.drop_last();
        lemma_oversized_empty_iff(d, cap);
        if s.last().spec_size() > cap {
            assert(s[s.len() - 1] == s.last());
            assert(!all_fit(s, cap));
        } else {
            assert(all_fit(d, cap) ==> all_fit(s, cap)) by {
                if all_fit(d, cap) {
                    assert forall|i: int| 0 <= i < s.len() implies (#[trigger] s[i]).spec_size()
                        <= cap by {
                        if i < s.len() - 1 {
                            assert(s[i] == d[i]);
                            assert(d[i].spec_size() <= cap);
                        } else {
                            assert(s[i] == s.last());
                        }
                    }
                }
            }
            assert(all_fit(s, cap) ==> all_fit(d, cap)) by {
                if all_fit(s, cap) {
                    assert forall|i: int| 0 <= i < d.len() implies (#[trigger] d[i]).spec_size()
                        <= cap by {
                        assert(d[i] == s[i]);
                        assert(s[i].spec_size() <= cap);
                    }
                }
            }
        }
    }
}

/// Sorting keeps every item within capacity if the input was.
pub proof fn lemma_sort_all_fit<T: Sizeable>(s: Seq<T>, cap: usize)
    requires
        all_fit(s, cap),
    ensures
        all_fit(sort_desc(s), cap),
{
    lemma_sort_desc_multiset(s);
    s.to_multiset_ensures();
    sort_desc(s).to_multiset_ensures();
    assert forall|i: int| 0 <= i < sort_desc(s).len() implies (#[trigger] sort_desc(
        s,
    )[i]).spec_size() <= cap by {
        let x = sort_desc(s)[i];
        assert(sort_desc(s).contains(x));
        assert(sort_desc(s).to_multiset().count(x) > 0);
        assert(s.to_multiset().count(x) > 0);
        assert(s.contains(x));
        let j = choose|j: int| 0 <= j < s.len() && s[j] == x;
        assert(s[j].spec_size() <= cap);
    }
}

/// Why a run was refused. Either way the items come back untouched.
#[derive(Debug)]
pub enum PackError<T> {
    /// The configured capacity was not positive.
    InvalidCapacity { items: Vec<T> },
    /// Some items are larger than the capacity and can never be placed;
    /// `indices` lists their positions in the input, in increasing order.
    Oversized { items: Vec<T>, indices: Vec<usize> },
}

/// The positions of the items too large for the capacity, in increasing
/// order; empty exactly when every item fits.
fn find_oversized<T: Sizeable>(items: &Vec<T>, cap: usize) -> (r: Vec<usize>)
    ensures
        r@.map_values(|v: usize| v as int) == oversized_ix(items@, cap),
        r@.len() == 0 <==> all_fit(items@, cap),
{
    let n = items.len();
    let mut out: Vec<usize> = Vec::new();
    let mut i: usize = 0;
    proof {
        assert(out@.map_values(|v: usize| v as int) =~= oversized_ix(items@.take(0), cap));
    }
    while i < n
        invariant
            i <= n,
            n == items@.len(),
            out@.map_values(|v: usize| v as int) == oversized_ix(items@.take(i as int), cap),
        decreases n - i,
    {
        let ghost prev = out@;
        if items[i].size() > cap {
            out.push(i);
            proof {
                assert(out@.map_values(|v: usize| v as int) =~= prev.map_values(
                    |v: usize| v as int,
                ).push(i as int));
            }
        }
        proof {
            lemma_oversized_step(items@, i as int, cap);
        }
        i += 1;
    }
    proof {
        assert(items@.take(n as int) =~= items@);
        lemma_oversized_empty_iff(items@, cap);
        assert(out@.len() == out@.map_values(|v: usize| v as int).len());
    }
    out
}

/// The first bin with room for an item of size `xs`, or the bin count when
/// none has room.
fn find_slot<T: Sizeable>(bins: &Vec<Bin<T>>, xs: usize, cap: usize) -> (j: usize)
    requires
        bins_wf(bins@, cap),
    ensures
        j == fit_index(bins_model(bins@), xs as int, cap),
{
    let n = bins.len();
    let mut j: usize = 0;
    while j < n
        invariant
            j <= n,
            n == bins@.len(),
            bins_wf(bins@, cap),
            forall|k: int|
                0 <= k < j ==> sum_sizes(#[trigger] bins_model(bins@)[k]) + xs > cap,
        decreases n - j,
    {
        let rc = bins[j].remaining_capacity();
        proof {
            assert(bins_model(bins@)[j as int] == bins@[j as int].spec_contents());
        }
        if xs <= rc {
            proof {
                lemma_fit_index_unique(bins_model(bins@), xs as int, cap, j as int);
            }
            return j;
        }
        j += 1;
    }
    proof {
        lemma_fit_index_unique(bins_model(bins@), xs as int, cap, n as int);
    }
    n
}

/// Place one item first-fit among the bins, opening a new bin when needed.
fn place_one<T: Sizeable>(bins: &mut Vec<Bin<T>>, x: T, cap: usize)
    requires
        0 < cap,
        x.spec_size() <= cap,
        bins_wf(old(bins)@, cap),
    ensures
        bins_wf(final(bins)@, cap),
        bins_model(final(bins)@) == place_item(bins_model(old(bins)@), x, cap),
{
    let xs = x.size();
    let j = find_slot(bins, xs, cap);
    proof {
        lemma_fit_index_bounds(bins_model(bins@), xs as int, cap);
        lemma_place_item_at(bins_model(bins@), x, cap);
    }
    if j < bins.len() {
        let mut b = bins.remove(j);
        proof {
            assert(bins_model(old(bins)@)[j as int] == b.spec_contents());
        }
        let _rejected = b.try_place(x);
        bins.insert(j, b);
        proof {
            assert(bins@ =~= old(bins)@.update(j as int, b));
            assert(bins_model(bins@) =~= place_item(bins_model(old(bins)@), x, cap));
        }
    } else {
        let mut b = Bin::with_capacity(cap);
        let _rejected = b.try_place(x);
        bins.push(b);
        proof {
            assert(b.spec_contents() =~= seq![x]);
            assert(bins_model(bins@) =~= place_item(bins_model(old(bins)@), x, cap));
        }
    }
}

/// Place every item, in order, first-fit among the growing bin sequence.
fn place_all<T: Sizeable>(items: Vec<T>, cap: usize) -> (r: Vec<Bin<T>>)
    requires
        0 < cap,
        all_fit(items@, cap),
    ensures
        bins_wf(r@, cap),
        bins_model(r@) == pack_all(items@, cap),
{
    let mut rest = items;
    let ghost orig: Seq<T> = rest@;
    let ghost mut i: int = 0;
    let mut bins: Vec<Bin<T>> = Vec::new();
    proof {
        assert(bins_model(bins@) =~= pack_all(orig.take(0), cap));
    }
    while rest.len() > 0
        invariant
            0 <= i <= orig.len(),
            rest@ == orig.skip(i),
            0 < cap,
            all_fit(orig, cap),
            bins_wf(bins@, cap),
            bins_model(bins@) == pack_all(orig.take(i), cap),
        decreases rest@.len(),
    {
        let x = rest.remove(0);
        proof {
            assert(orig.skip(i)[0] == orig[i]);
            assert(orig[i].spec_size() <= cap);
            assert(rest@ =~= orig.skip(i + 1));
        }
        place_one(&mut bins, x, cap);
        proof {
            lemma_pack_all_step(orig, i, cap);
            i = i + 1;
        }
    }
    proof {
        assert(orig.take(i) =~= orig);
    }
    bins
}

/// Pack the items into fixed-capacity bins by first-fit-decreasing.
///
/// On success the returned bins are exactly `ffd_spec(capacity, items)`:
/// the items in stable descending size order, each placed in the first bin
/// with room, a new bin opened only when none has room. Every item lands in
/// exactly one bin and every bin keeps its total within the capacity.
///
/// The run is refused, with the items handed back untouched, when the
/// capacity is not positive or when some item could never fit any bin; the
/// offending positions are reported.
pub fn pack<T: Sizeable>(capacity: usize, items: Vec<T>) -> (r: Result<Vec<Bin<T>>, PackError<T>>)
    ensures
        match r {
            Ok(bins) => {
                &&& 0 < capacity
                &&& all_fit(items@, capacity)
                &&& bins_wf(bins@, capacity)
                &&& bins_model(bins@) == ffd_spec(capacity, items@)
            },
            Err(e) => match e {
                PackError::InvalidCapacity { items: returned } => {
                    &&& capacity == 0
                    &&& returned@ == items@
                },
                PackError::Oversized { items: returned, indices } => {
                    &&& 0 < capacity
                    &&& !all_fit(items@, capacity)
                    &&& returned@ == items@
                    &&& indices@.map_values(|v: usize| v as int) == oversized_ix(
                        items@,
                        capacity,
                    )
                    &&& 0 < indices@.len()
                },
            },
        },
{
    if capacity == 0 {
        return Err(PackError::InvalidCapacity { items });
    }
    let oversized = find_oversized(&items, capacity);
    if oversized.len() > 0 {
        return Err(PackError::Oversized { items, indices: oversized });
    }
    let sorted = sort_by_size_desc(items);
    proof {
        lemma_sort_all_fit(items@, capacity);
    }
    let bins = place_all(sorted, capacity);
    Ok(bins)
}

} // verus!
