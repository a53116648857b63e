use vstd::prelude::*;

use crate::Sizeable;

verus! {

/// The total size of a sequence of items.
pub open spec fn sum_sizes<T: Sizeable>(s: Seq<T>) -> int
    decreases s.len(),
{
    if s.len() == 0 {
        0
    } else {
        sum_sizes(s.drop_last()) + s.last().spec_size()
    }
}

pub proof fn lemma_sum_sizes_nonneg<T: Sizeable>(s: Seq<T>)
    ensures
        sum_sizes(s) >= 0,
    decreases s.len(),
{
    if s.len() > 0 {
        lemma_sum_sizes_nonneg(s.drop_last());
    }
}

pub proof fn lemma_sum_sizes_push<T: Sizeable>(s: Seq<T>, x: T)
    ensures
        sum_sizes(s.push(x)) == sum_sizes(s) + x.spec_size(),
{
    assert(s.push(x).drop_last() =~= s);
    assert(s.push(x).last() == x);
}

} // verus!
