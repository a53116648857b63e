use vstd::prelude::*;

use vstd::seq_lib::lemma_multiset_commutative;

use crate::Sizeable;

verus! {

/// Descending order by size: every earlier item is at least as large.
pub open spec fn sorted_desc<T: Sizeable>(s: Seq<T>) -> bool {
    forall|i: int, j: int|
        0 <= i <= j < s.len() ==> #[trigger] s[i].spec_size() >= #[trigger] s[j].spec_size()
}

/// Where a stable descending insertion puts an item of size `xsz`: after the
/// longest prefix of items at least as large, so that equal sizes keep the
/// relative order in which they arrived.
pub open spec fn skip_count<T: Sizeable>(xsz: int, s: Seq<T>) -> int
    decreases s.len(),
{
    if s.len() == 0 {
        0
    } else if s.first().spec_size() >= xsz {
        1 + skip_count(xsz, s.drop_first())
    } else {
        0
    }
}

/// Stable descending insertion: the new item goes immediately after every
/// item at least as large as it.
pub open spec fn insert_desc<T: Sizeable>(x: T, s: Seq<T>) -> Seq<T>
    decreases s.len(),
{
    if s.len() == 0 {
        seq![x]
    } else if s.first().spec_size() >= x.spec_size() {
        seq![s.first()] + insert_desc(x, s.drop_first())
    } else {
        seq![x] + s
    }
}

/// Stable sort by decreasing size, as insertion sort: each item, in input
/// order, is inserted into the sorted run of the items before it.
pub open spec fn sort_desc<T: Sizeable>(s: Seq<T>) -> Seq<T>
    decreases s.len(),
{
    if s.len() == 0 {
        Seq::empty()
    } else {
        insert_desc(s.last(), sort_desc(s.drop_last()))
    }
}

pub proof fn lemma_skip_count_bounds<T: Sizeable>(xsz: int, s: Seq<T>)
    ensures
        0 <= skip_count(xsz, s) <= s.len(),
        forall|k: int| 0 <= k < skip_count(xsz, s) ==> (#[trigger] s[k]).spec_size() >= xsz,
        skip_count(xsz, s) < s.len() ==> s[skip_count(xsz, s)].spec_size() < xsz,
    decreases s.len(),
{
    if s.len() > 0 && s.first().spec_size() >= xsz {
        lemma_skip_count_bounds(xsz, s.drop_first());
        let c = skip_count(xsz, s);
        assert forall|k: int| 0 <= k < c implies (#[trigger] s[k]).spec_size() >= xsz by {
            if k >= 1 {
                assert(s[k] == s.drop_first()[k - 1]);
            } else {
                assert(s[0] == s.first());
            }
        }
        if c < s.len() {
            assert(s[c] == s.drop_first()[c - 1]);
        }
    }
}

/// The insertion point is the one position bounded below by items at least
/// as large and above by a strictly smaller item (or the end).
pub proof fn lemma_skip_count_unique<T: Sizeable>(xsz: int, s: Seq<T>, p: int)
    requires
        0 <= p <= s.len(),
        forall|k: int| 0 <= k < p ==> (#[trigger] s[k]).spec_size() >= xsz,
        p < s.len() ==> s[p].spec_size() < xsz,
    ensures
        p == skip_count(xsz, s),
    decreases s.len(),
{
    if s.len() == 0 {
    } else if s.first().spec_size() >= xsz {
        assert(s[0] == s.first());
        assert(p >= 1) by {
            if p == 0 {
                assert(s[0].spec_size() < xsz);
            }
        }
        let d = s.drop_first();
        assert forall|k: int| 0 <= k < p - 1 implies (#[trigger] d[k]).spec_size() >= xsz by {
            assert(d[k] == s[k + 1]);
        }
        if p - 1 < d.len() {
            assert(d[p - 1] == s[p]);
        }
        lemma_skip_count_unique(xsz, d, p - 1);
    } else {
        assert(s[0] == s.first());
        assert(p == 0) by {
            if p > 0 {
                assert(s[0].spec_size() >= xsz);
            }
        }
    }
}

/// Inserting splits the sequence at the insertion point.
pub proof fn lemma_insert_desc_decompose<T: Sizeable>(x: T, s: Seq<T>)
    ensures
        insert_desc(x, s) == s.take(skip_count(x.spec_size() as int, s)) + seq![x] + s.skip(
            skip_count(x.spec_size() as int, s),
        ),
    decreases s.len(),
{
    let xsz = x.spec_size() as int;
    lemma_skip_count_bounds(xsz, s);
    let c = skip_count(xsz, s);
    if s.len() == 0 {
        assert(insert_desc(x, s) =~= s.take(0) + seq![x] + s.skip(0));
    } else if s.first().spec_size() >= x.spec_size() {
        let d = s.drop_first();
        let cd = skip_count(xsz, d);
        lemma_insert_desc_decompose(x, d);
        lemma_skip_count_bounds(xsz, d);
        assert(seq![s.first()] + (d.take(cd) + seq![x] + d.skip(cd)) =~= s.take(c) + seq![x]
            + s.skip(c));
    } else {
        assert(seq![x] + s =~= s.take(0) + seq![x] + s.skip(0));
    }
}

pub proof fn lemma_insert_desc_len<T: Sizeable>(x: T, s: Seq<T>)
    ensures
        insert_desc(x, s).len() == s.len() + 1,
{
    lemma_skip_count_bounds(x.spec_size() as int, s);
    lemma_insert_desc_decompose(x, s);
}

pub proof fn lemma_sort_desc_len<T: Sizeable>(s: Seq<T>)
    ensures
        sort_desc(s).len() == s.len(),
    decreases s.len(),
{
    if s.len() > 0 {
        lemma_sort_desc_len(s.drop_last());
        lemma_insert_desc_len(s.last(), sort_desc(s.drop_last()));
    }
}

/// Insertion neither loses, copies, nor invents items.
pub proof fn lemma_insert_desc_multiset<T: Sizeable>(x: T, s: Seq<T>)
    ensures
        insert_desc(x, s).to_multiset() == s.to_multiset().insert(x),
{
    broadcast use vstd::multiset::group_multiset_axioms;

    let xsz = x.spec_size() as int;
    lemma_skip_count_bounds(xsz, s);
    lemma_insert_desc_decompose(x, s);
    let c = skip_count(xsz, s);
    let a = s.take(c);
    let b = s.skip(c);
    lemma_multiset_commutative(a + seq![x], b);
    lemma_multiset_commutative(a, seq![x]);
    lemma_multiset_commutative(a, b);
    assert(a + b =~= s);
    assert(a + seq![x] =~= a.push(x));
    a.to_multiset_ensures();
    assert(a.to_multiset().insert(x).add(b.to_multiset()) =~= a.to_multiset().add(
        b.to_multiset(),
    ).insert(x));
}

/// Sorting neither loses, copies, nor invents items.
pub proof fn lemma_sort_desc_multiset<T: Sizeable>(s: Seq<T>)
    ensures
        sort_desc(s).to_multiset() == s.to_multiset(),
    decreases s.len(),
{
    if s.len() > 0 {
        let d = s.drop_last();
        lemma_sort_desc_multiset(d);
        lemma_insert_desc_multiset(s.last(), sort_desc(d));
        d.to_multiset_ensures();
        assert(d.push(s.last()) =~= s);
        assert(d.push(s.last()).to_multiset() =~= d.to_multiset().insert(s.last()));
        assert(s.to_multiset() == d.push(s.last()).to_multiset());
    } else {
        assert(s =~= Seq::<T>::empty());
    }
}

/// Insertion into a descending run keeps it descending.
pub proof fn lemma_insert_desc_sorted<T: Sizeable>(x: T, s: Seq<T>)
    requires
        sorted_desc(s),
    ensures
        sorted_desc(insert_desc(x, s)),
{
    let xsz = x.spec_size() as int;
    lemma_skip_count_bounds(xsz, s);
    lemma_insert_desc_decompose(x, s);
    let c = skip_count(xsz, s);
    let r = insert_desc(x, s);
    assert forall|i: int, j: int| 0 <= i <= j < r.len() implies #[trigger] r[i].spec_size()
        >= #[trigger] r[j].spec_size() by {
        assert(forall|k: int| 0 <= k < c ==> r[k] == s[k]);
        assert(r[c] == x);
        assert(forall|k: int| c < k < r.len() ==> r[k] == s[k - 1]);
        if i < c && j == c {
            assert(s[i].spec_size() >= x.spec_size());
        }
        if i == c && j > c {
            assert(s[j - 1].spec_size() < x.spec_size()) by {
                assert(s[c].spec_size() < x.spec_size());
                assert(s[c].spec_size() >= s[j - 1].spec_size());
            }
        }
    }
}

/// The sort's result is in descending size order.
pub proof fn lemma_sort_desc_sorted<T: Sizeable>(s: Seq<T>)
    ensures
        sorted_desc(sort_desc(s)),
    decreases s.len(),
{
    if s.len() > 0 {
        lemma_sort_desc_sorted(s.drop_last());
        lemma_insert_desc_sorted(s.last(), sort_desc(s.drop_last()));
    }
}

/// Sorting one more item is one stable insertion into the sorted prefix.
pub proof fn lemma_sort_desc_step<T: Sizeable>(s: Seq<T>, i: int)
    requires
        0 <= i < s.len(),
    ensures
        sort_desc(s.take(i + 1)) == insert_desc(s[i], sort_desc(s.take(i))),
{
    let t = s.take(i + 1);
    assert(t.len() == i + 1);
    assert(t.drop_last() =~= s.take(i));
    assert(t.last() == s[i]);
}

/// The stable insertion point for an item of size `xs`: right after every
/// item at least as large.
fn find_insert_pos<T: Sizeable>(v: &Vec<T>, xs: usize) -> (pos: usize)
    ensures
        pos == skip_count(xs as int, v@),
{
    let n = v.len();
    let mut pos: usize = 0;
    while pos < n
        invariant
            pos <= n,
            n == v@.len(),
            forall|k: int| 0 <= k < pos ==> (#[trigger] v@[k]).spec_size() >= xs,
        decreases n - pos,
    {
        if v[pos].size() < xs {
            proof {
                lemma_skip_count_unique(xs as int, v@, pos as int);
            }
            return pos;
        }
        pos += 1;
    }
    proof {
        lemma_skip_count_unique(xs as int, v@, n as int);
    }
    n
}

/// Insert one item at its stable descending position.
fn insert_by_size<T: Sizeable>(v: &mut Vec<T>, x: T)
    ensures
        final(v)@ == insert_desc(x, old(v)@),
{
    let xs = x.size();
    let pos = find_insert_pos(v, xs);
    proof {
        lemma_skip_count_bounds(xs as int, v@);
        lemma_insert_desc_decompose(x, v@);
    }
    v.insert(pos, x);
    proof {
        assert(old(v)@.insert(pos as int, x) =~= old(v)@.take(pos as int) + seq![x] + old(
            v,
        )@.skip(pos as int));
    }
}

/// Sort the items by decreasing size. The sort is stable: items of equal
/// size keep the order in which they arrived, so the result is a fixed
/// function of the input sequence.
pub fn sort_by_size_desc<T: Sizeable>(items: Vec<T>) -> (r: Vec<T>)
    ensures
        r@ == sort_desc(items@),
{
    let mut rest = items;
    let ghost orig: Seq<T> = rest@;
    let ghost mut i: int = 0;
    let mut out: Vec<T> = Vec::new();
    proof {
        assert(orig.take(0) =~= Seq::<T>::empty());
    }
    while rest.len() > 0
        invariant
            0 <= i <= orig.len(),
            rest@ == orig.skip(i),
            out@ == sort_desc(orig.take(i)),
        decreases rest@.len(),
    {
        let x = rest.remove(0);
        proof {
            assert(orig.skip(i)[0] == orig[i]);
            assert(rest@ =~= orig.skip(i + 1));
        }
        insert_by_size(&mut out, x);
        proof {
            lemma_sort_desc_step(orig, i);
            i = i + 1;
        }
    }
    proof {
        assert(orig.take(i) =~= orig);
    }
    out
}

} // verus!
