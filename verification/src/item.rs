use vstd::prelude::*;

use crate::Sizeable;

verus! {

/// One discovered file: its path and its size in bytes. The reference item
/// type for packing files across fixed-size directories.
#[derive(Debug, PartialEq, Eq)]
pub struct FileItem {
    pub path: String,
    pub size: usize,
}

impl Sizeable for FileItem {
    open spec fn spec_size(&self) -> usize {
        self.size
    }

    fn size(&self) -> usize {
        self.size
    }
}

/// A bare size is itself packable; convenient for callers whose items carry
/// no payload beyond their size.
impl Sizeable for usize {
    open spec fn spec_size(&self) -> usize {
        *self
    }

    fn size(&self) -> usize {
        *self
    }
}

} // verus!
