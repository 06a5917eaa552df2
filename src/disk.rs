use vstd::prelude::*;

use crate::page::{PageId, PAGE_SIZE};

verus! {

/// Page numbering of the heap file. The file holds its pages one after the other, so the
/// next free identifier follows from the file's length; reading and writing the bytes is
/// left to the owner of the file.
pub struct DiskManager {
    next_page_id: u64,
}

impl View for DiskManager {
    /// The identifier that the next allocation hands out.
    type V = nat;

    closed spec fn view(&self) -> nat {
        self.next_page_id as nat
    }
}

/// Byte offset of page `page_id` in the heap file.
pub open spec fn page_offset_spec(page_id: u64) -> int {
    page_id * PAGE_SIZE
}

/// Byte offset of page `page_id` in the heap file, or `None` when it does not fit in 64 bits.
pub fn page_offset(page_id: PageId) -> (r: Option<u64>)
    ensures
        r == (if page_offset_spec(page_id.0) <= u64::MAX {
            Some(page_offset_spec(page_id.0) as u64)
        } else {
            None
        }),
{
    page_id.0.checked_mul(PAGE_SIZE as u64)
}

impl DiskManager {
    /// Numbering for a heap file of `heap_file_size` bytes: the pages already in it are
    /// `0 .. heap_file_size / PAGE_SIZE`.
    pub fn new(heap_file_size: u64) -> (r: DiskManager)
        ensures
            r@ == heap_file_size as nat / PAGE_SIZE as nat,
    {
        DiskManager { next_page_id: heap_file_size / PAGE_SIZE as u64 }
    }

    /// The identifier that the next allocation hands out.
    pub fn next_page_id(&self) -> (r: PageId)
        ensures
            r.0 == self@,
    {
        PageId(self.next_page_id)
    }

    /// Reserves a fresh page identifier: the next one, which is then used up. Nothing is
    /// written to the file.
    pub fn allocate_page(&mut self) -> (r: PageId)
        requires
            old(self)@ < u64::MAX,
        ensures
            r.0 == old(self)@,
            final(self)@ == old(self)@ + 1,
    {
        let page_id = self.next_page_id;
        self.next_page_id = page_id + 1;
        PageId(page_id)
    }
}

/// Successive allocations from a fresh numbering hand out `size / PAGE_SIZE`, then the next
/// integer, and so on: strictly increasing identifiers. `before[i]` is the numbering's state
/// before the `i`-th allocation and `ids[i]` what that allocation returned.
pub proof fn lemma_allocations_increase(heap_file_size: u64, before: Seq<nat>, ids: Seq<u64>)
    requires
        before.len() == ids.len() + 1,
        before[0] == heap_file_size as nat / PAGE_SIZE as nat,
        forall|i: int|
            0 <= i < ids.len() ==> #[trigger] ids[i] == before[i] && before[i + 1] == before[i] + 1,
    ensures
        forall|i: int| 0 <= i < ids.len() ==> #[trigger] ids[i] == heap_file_size as nat / PAGE_SIZE as nat + i,
        forall|i: int, j: int| 0 <= i < j < ids.len() ==> ids[i] < ids[j],
    decreases ids.len(),
{
    if ids.len() > 0 {
        let k = ids.len() - 1;
        lemma_allocations_increase(heap_file_size, before.take(k + 1), ids.take(k));
        assert(forall|i: int| 0 <= i < k ==> ids.take(k)[i] == ids[i]);
        assert forall|i: int| 0 <= i < ids.len() implies #[trigger] ids[i] == heap_file_size as nat
            / PAGE_SIZE as nat + i by {
            if i < k {
                assert(ids.take(k)[i] == ids[i]);
            } else {
                assert(before.take(k + 1)[k] == before[k]);
                if k > 0 {
                    assert(ids.take(k)[k - 1] == ids[k - 1]);
                    assert(before[k] == before[k - 1] + 1);
                }
            }
        }
    }
}

} // verus!
