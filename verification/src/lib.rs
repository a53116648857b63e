use vstd::prelude::*;

pub mod bin;
pub mod engine;
pub mod item;
pub mod laws;
pub mod sizes;
pub mod sort;

verus! {

/// The capability an item must expose to be packable: a non-negative size,
/// measured in the same unit as bin capacity. The engine is polymorphic over
/// any such type and never looks at anything but the size.
pub trait Sizeable: Sized {
    /// The item's size as seen by specifications.
    spec fn spec_size(&self) -> usize;

    /// The item's size. Pure: two calls on the same item agree.
    fn size(&self) -> (r: usize)
        ensures
            r == self.spec_size(),
    ;
}

} // verus!
