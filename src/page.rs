use vstd::prelude::*;

verus! {

/// Size in bytes of every page, on disk and in memory.
pub const PAGE_SIZE: usize = 4096;

/// Identifier of a page of the heap file; page `i` lives at byte offset `i * PAGE_SIZE`.
#[derive(Clone, Copy, PartialEq, Eq, Structural, Debug, Hash)]
pub struct PageId(pub u64);

/// Index of a frame in the buffer pool.
#[derive(Clone, Copy, PartialEq, Eq, Structural, Debug, Hash)]
pub struct BufferId(pub u64);

impl PageId {
    pub fn to_u64(self) -> (r: u64)
        ensures
            r == self.0,
    {
        self.0
    }
}

} // verus!
