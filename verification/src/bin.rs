use vstd::prelude::*;

use crate::sizes::{lemma_sum_sizes_push, sum_sizes};
use crate::Sizeable;

verus! {

/// One fixed-capacity container. The capacity is set at creation and never
/// changes; items are only ever appended, and only when they fit.
#[derive(Debug)]
pub struct Bin<T: Sizeable> {
    capacity: usize,
    used: usize,
    contents: Vec<T>,
}

impl<T: Sizeable> Bin<T> {
    /// The bin's fixed capacity.
    pub closed spec fn spec_capacity(&self) -> usize {
        self.capacity
    }

    /// The placed items, in placement order.
    pub closed spec fn spec_contents(&self) -> Seq<T> {
        self.contents@
    }

    /// Validity: positive capacity, an accurate running total, and the
    /// capacity invariant — the contents never outgrow the capacity.
    pub closed spec fn inv(&self) -> bool {
        &&& 0 < self.capacity
        &&& self.used == sum_sizes(self.contents@)
        &&& sum_sizes(self.contents@) <= self.capacity
    }

    /// What validity guarantees to callers that cannot see the fields.
    pub proof fn lemma_inv(&self)
        requires
            self.inv(),
        ensures
            0 < self.spec_capacity(),
            sum_sizes(self.spec_contents()) <= self.spec_capacity(),
    {
    }

    /// An empty bin of the given capacity; rejects a non-positive capacity.
    pub fn new(capacity: usize) -> (r: Option<Bin<T>>)
        ensures
            match r {
                Some(b) => {
                    &&& 0 < capacity
                    &&& b.inv()
                    &&& b.spec_capacity() == capacity
                    &&& b.spec_contents() == Seq::<T>::empty()
                },
                None => capacity == 0,
            },
    {
        if capacity > 0 {
            Some(Self::with_capacity(capacity))
        } else {
            None
        }
    }

    /// An empty bin of the given positive capacity.
    pub fn with_capacity(capacity: usize) -> (r: Bin<T>)
        requires
            0 < capacity,
        ensures
            r.inv(),
            r.spec_capacity() == capacity,
            r.spec_contents() == Seq::<T>::empty(),
    {
        Bin { capacity, used: 0, contents: Vec::new() }
    }

    /// The bin's fixed capacity.
    pub fn capacity(&self) -> (r: usize)
        ensures
            r == self.spec_capacity(),
    {
        self.capacity
    }

    /// How much room is left: capacity minus the total size of the contents.
    pub fn remaining_capacity(&self) -> (r: usize)
        requires
            self.inv(),
        ensures
            r == self.spec_capacity() - sum_sizes(self.spec_contents()),
    {
        proof {
            crate::sizes::lemma_sum_sizes_nonneg(self.contents@);
        }
        self.capacity - self.used
    }

    /// Atomic placement: if the item fits in the remaining capacity it is
    /// appended and `None` comes back; otherwise the bin is unchanged and the
    /// item comes back untouched.
    pub fn try_place(&mut self, item: T) -> (r: Option<T>)
        requires
            old(self).inv(),
        ensures
            final(self).inv(),
            final(self).spec_capacity() == old(self).spec_capacity(),
            if sum_sizes(old(self).spec_contents()) + item.spec_size()
                <= old(self).spec_capacity() {
                final(self).spec_contents() == old(self).spec_contents().push(item)
                    && r is None
            } else {
                *final(self) == *old(self) && r == Some(item)
            },
    {
        let size = item.size();
        proof {
            crate::sizes::lemma_sum_sizes_nonneg(self.contents@);
        }
        if size <= self.capacity - self.used {
            proof {
                lemma_sum_sizes_push(self.contents@, item);
            }
            self.contents.push(item);
            self.used = self.used + size;
            None
        } else {
            Some(item)
        }
    }

    /// Read-only view of the placed items, in placement order.
    pub fn contents(&self) -> (r: &Vec<T>)
        ensures
            r@ == self.spec_contents(),
    {
        &self.contents
    }

    /// Consume the bin and hand its items out, in placement order.
    pub fn into_contents(self) -> (r: Vec<T>)
        ensures
            r@ == self.spec_contents(),
    {
        self.contents
    }
}

} // verus!
