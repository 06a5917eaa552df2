use std::collections::HashMap;

use vstd::prelude::*;

use crate::disk::DiskManager;
use crate::page::{BufferId, PageId, PAGE_SIZE};
use crate::pool::{
    after_sweep, all_pinned, clock_next, clock_victim, pool_wf, Buffer, BufferPool, FrameView, PoolView,
    ResidentPage,
};

verus! {

broadcast use vstd::std_specs::hash::group_hash_axioms;

/// What can go wrong in an operation of the buffer pool manager.
#[derive(Clone, Copy, PartialEq, Eq, Structural, Debug)]
pub enum BufferError {
    /// Reading or writing the heap file failed.
    Io,
    /// Every frame is pinned: no page can be brought in until one is released.
    BufferPoolFull,
    /// The page is not held by any frame.
    PageNotResident,
    /// The page is resident but nobody holds a pin on it.
    PageNotPinned,
    /// The page lies beyond the pages that were ever allocated.
    PageNotAllocated,
    /// The page's pin count is at its largest value.
    TooManyPins,
    /// No page identifier is left to allocate.
    OutOfPageIds,
}

/// A page brought into the pool, pinned once for the caller. `evicted` is the dirty page
/// that had to leave its frame for it: its bytes must be written to the heap file.
pub struct Fetched {
    pub page_id: PageId,
    pub buffer_id: BufferId,
    pub evicted: Option<Buffer>,
}

/// Model of a fetched page: its identifier, its frame, and the evicted dirty page, if any.
pub struct FetchedView {
    pub page_id: u64,
    pub frame: u64,
    pub evicted: Option<ResidentPage>,
}

/// Model of the result of a fetch or an allocation.
pub open spec fn fetched_view(r: Result<Fetched, BufferError>) -> Result<FetchedView, BufferError> {
    match r {
        Ok(f) => Ok(
            FetchedView {
                page_id: f.page_id.0,
                frame: f.buffer_id.0,
                evicted: match f.evicted {
                    Some(b) => Some(b.resident_view()),
                    None => None,
                },
            },
        ),
        Err(e) => Err(e),
    }
}

/// Model of the manager: the next page identifier, the pool, and the page table from page
/// identifiers to frame indices.
pub struct ManagerView {
    pub next_page_id: nat,
    pub pool: PoolView,
    pub table: Map<u64, u64>,
}

/// The page table indexes exactly the resident pages, each at the one frame that holds it,
/// and only allocated pages are resident.
pub open spec fn manager_wf(m: ManagerView) -> bool {
    &&& pool_wf(m.pool)
    &&& forall|p: u64| #[trigger]
        m.table.contains_key(p) ==> {
            &&& p < m.next_page_id
            &&& m.table[p] < m.pool.frames.len()
            &&& m.pool.frames[m.table[p] as int].resident matches Some(r) && r.id == p
        }
    &&& forall|f: int|
        0 <= f < m.pool.frames.len() && (#[trigger] m.pool.frames[f]).resident is Some ==> {
            &&& m.table.contains_key(m.pool.frames[f].resident.unwrap().id)
            &&& m.table[m.pool.frames[f].resident.unwrap().id] == f
        }
}

/// A page full of zeros.
pub open spec fn zero_page() -> Seq<u8> {
    Seq::new(PAGE_SIZE as nat, |i: int| 0u8)
}

/// Brings page `p` with bytes `data` into the frame that the clock sweep selects.
pub open spec fn bring_in_spec(m: ManagerView, p: u64, data: Seq<u8>, dirty: bool) -> (
    ManagerView,
    Result<FetchedView, BufferError>,
) {
    match clock_victim(m.pool.frames, m.pool.cursor) {
        None => (m, Err(BufferError::BufferPoolFull)),
        Some(v) => {
            let swept = after_sweep(m.pool.frames, m.pool.cursor, v);
            let previous = swept[v].resident;
            let table = match previous {
                Some(r) => m.table.remove(r.id),
                None => m.table,
            };
            (
                ManagerView {
                    next_page_id: m.next_page_id,
                    pool: PoolView {
                        frames: swept.update(
                            v,
                            FrameView {
                                usage: 1,
                                pins: 1,
                                resident: Some(ResidentPage { id: p, data, dirty }),
                            },
                        ),
                        cursor: clock_next(m.pool.frames.len(), v as nat),
                    },
                    table: table.insert(p, v as u64),
                },
                Ok(
                    FetchedView {
                        page_id: p,
                        frame: v as u64,
                        evicted: match previous {
                            Some(r) => if r.dirty {
                                Some(r)
                            } else {
                                None
                            },
                            None => None,
                        },
                    },
                ),
            )
        },
    }
}

/// Frame `f` pinned once more and used once more.
pub open spec fn pin_frame(m: ManagerView, f: int) -> ManagerView {
    let fr = m.pool.frames[f];
    ManagerView {
        pool: PoolView {
            frames: m.pool.frames.update(
                f,
                FrameView {
                    usage: if fr.usage < u64::MAX {
                        fr.usage + 1
                    } else {
                        fr.usage
                    },
                    pins: fr.pins + 1,
                    resident: fr.resident,
                },
            ),
            cursor: m.pool.cursor,
        },
        ..m
    }
}

/// Fetching page `p`, whose bytes on disk are `loaded`.
pub open spec fn fetch_spec(m: ManagerView, p: u64, loaded: Seq<u8>) -> (
    ManagerView,
    Result<FetchedView, BufferError>,
) {
    if m.table.contains_key(p) {
        let f = m.table[p];
        if m.pool.frames[f as int].pins < u64::MAX {
            (pin_frame(m, f as int), Ok(FetchedView { page_id: p, frame: f, evicted: None }))
        } else {
            (m, Err(BufferError::TooManyPins))
        }
    } else if p >= m.next_page_id {
        (m, Err(BufferError::PageNotAllocated))
    } else {
        bring_in_spec(m, p, loaded, false)
    }
}

/// Allocating a page and bringing it in, zero-filled and dirty so that it reaches the file.
pub open spec fn new_page_spec(m: ManagerView) -> (ManagerView, Result<FetchedView, BufferError>) {
    if m.next_page_id >= u64::MAX {
        (m, Err(BufferError::OutOfPageIds))
    } else {
        bring_in_spec(
            ManagerView { next_page_id: m.next_page_id + 1, ..m },
            m.next_page_id as u64,
            zero_page(),
            true,
        )
    }
}

/// Releasing one pin of page `p`; the page becomes dirty if `is_dirty`, and stays dirty if
/// it was.
pub open spec fn unpin_spec(m: ManagerView, p: u64, is_dirty: bool) -> (
    ManagerView,
    Result<(), BufferError>,
) {
    if !m.table.contains_key(p) {
        (m, Err(BufferError::PageNotResident))
    } else {
        let f = m.table[p] as int;
        let fr = m.pool.frames[f];
        if fr.pins == 0 {
            (m, Err(BufferError::PageNotPinned))
        } else {
            (
                ManagerView {
                    pool: PoolView {
                        frames: m.pool.frames.update(
                            f,
                            FrameView {
                                usage: fr.usage,
                                pins: (fr.pins - 1) as nat,
                                resident: Some(
                                    ResidentPage {
                                        dirty: fr.resident.unwrap().dirty || is_dirty,
                                        ..fr.resident.unwrap()
                                    },
                                ),
                            },
                        ),
                        cursor: m.pool.cursor,
                    },
                    ..m
                },
                Ok(()),
            )
        }
    }
}

/// Flushing page `p`: a resident dirty page is handed out to be written and becomes clean.
pub open spec fn flush_spec(m: ManagerView, p: u64) -> (ManagerView, Option<Seq<u8>>) {
    if m.table.contains_key(p) && m.pool.frames[m.table[p] as int].resident.unwrap().dirty {
        let f = m.table[p] as int;
        let fr = m.pool.frames[f];
        let r = fr.resident.unwrap();
        (
            ManagerView {
                pool: PoolView {
                    frames: m.pool.frames.update(
                        f,
                        FrameView { resident: Some(ResidentPage { dirty: false, ..r }), ..fr },
                    ),
                    cursor: m.pool.cursor,
                },
                ..m
            },
            Some(r.data),
        )
    } else {
        (m, None)
    }
}

/// Writing `data` over page `p`, which the caller must hold pinned.
pub open spec fn write_spec(m: ManagerView, p: u64, data: Seq<u8>) -> (
    ManagerView,
    Result<(), BufferError>,
) {
    if !m.table.contains_key(p) {
        (m, Err(BufferError::PageNotResident))
    } else {
        let f = m.table[p] as int;
        let fr = m.pool.frames[f];
        if fr.pins == 0 {
            (m, Err(BufferError::PageNotPinned))
        } else {
            (
                ManagerView {
                    pool: PoolView {
                        frames: m.pool.frames.update(
                            f,
                            FrameView {
                                resident: Some(ResidentPage { data, ..fr.resident.unwrap() }),
                                ..fr
                            },
                        ),
                        cursor: m.pool.cursor,
                    },
                    ..m
                },
                Ok(()),
            )
        }
    }
}

/// The bytes of page `p` as the manager holds them, if it holds them.
pub open spec fn resident_data(m: ManagerView, p: u64) -> Option<Seq<u8>> {
    if m.table.contains_key(p) {
        Some(m.pool.frames[m.table[p] as int].resident.unwrap().data)
    } else {
        None
    }
}

/// The dirty pages among `frames`, in frame order, as identifier and bytes.
pub open spec fn dirty_pages(frames: Seq<FrameView>) -> Seq<(u64, Seq<u8>)>
    decreases frames.len(),
{
    if frames.len() == 0 {
        Seq::empty()
    } else {
        let rest = dirty_pages(frames.drop_last());
        match frames.last().resident {
            Some(r) => if r.dirty {
                rest.push((r.id, r.data))
            } else {
                rest
            },
            None => rest,
        }
    }
}

/// A frame whose page, if any, is marked clean.
pub open spec fn cleaned(f: FrameView) -> FrameView {
    match f.resident {
        Some(r) => FrameView { resident: Some(ResidentPage { dirty: false, ..r }), ..f },
        None => f,
    }
}

/// Model of pages handed out to be written: identifier and bytes.
pub open spec fn pages_view(r: Seq<(PageId, Vec<u8>)>) -> Seq<(u64, Seq<u8>)> {
    r.map_values(|e: (PageId, Vec<u8>)| (e.0.0, e.1@))
}

/// Buffer pool manager: page numbering, the pool of frames and the page table. It decides
/// what moves between memory and the heap file; the bytes themselves are read and written
/// by its owner, which hands it what it read and writes what it hands out.
pub struct BufferPoolManager {
    disk: DiskManager,
    pool: BufferPool,
    page_table: HashMap<u64, u64>,
}

impl View for BufferPoolManager {
    type V = ManagerView;

    closed spec fn view(&self) -> ManagerView {
        ManagerView { next_page_id: self.disk@, pool: self.pool@, table: self.page_table@ }
    }
}

impl BufferPoolManager {
    /// The manager's invariant, which every operation keeps.
    pub open spec fn wf(&self) -> bool {
        manager_wf(self@)
    }

    /// A manager over `disk`'s numbering with `pool_size` empty frames.
    pub fn new(disk: DiskManager, pool_size: usize) -> (r: BufferPoolManager)
        ensures
            r.wf(),
            r@.next_page_id == disk@,
            r@.table.is_empty(),
            r@.pool.cursor == 0,
            r@.pool.frames.len() == pool_size,
            forall|i: int|
                0 <= i < pool_size ==> #[trigger] r@.pool.frames[i] == (FrameView {
                    usage: 0,
                    pins: 0,
                    resident: None,
                }),
    {
        let pool = BufferPool::new(pool_size);
        let page_table: HashMap<u64, u64> = HashMap::new();
        let r = BufferPoolManager { disk, pool, page_table };
        proof {
            assert(r@.table =~= Map::empty());
        }
        r
    }

    /// The frame that holds page `page_id`, if any; nothing changes.
    pub fn lookup(&self, page_id: PageId) -> (r: Option<BufferId>)
        requires
            self.wf(),
        ensures
            r == (if self@.table.contains_key(page_id.0) {
                Some(BufferId(self@.table[page_id.0]))
            } else {
                None
            }),
    {
        match self.page_table.get(&page_id.0) {
            Some(f) => Some(BufferId(*f)),
            None => None,
        }
    }

    /// Fetches page `page_id`, pinned for the caller. A resident page is pinned once more and
    /// `loaded` is not used. Otherwise `loaded` must be the page's bytes as read from the heap
    /// file: they go into the frame that the clock sweep frees, whose page leaves the page
    /// table and, when dirty, is handed back in `evicted` to be written.
    pub fn fetch_page(&mut self, page_id: PageId, loaded: Vec<u8>) -> (r: Result<
        Fetched,
        BufferError,
    >)
        requires
            old(self).wf(),
            loaded@.len() == PAGE_SIZE,
        ensures
            final(self).wf(),
            (final(self)@, fetched_view(r)) == fetch_spec(old(self)@, page_id.0, loaded@),
    {
        match self.lookup(page_id) {
            Some(id) => {
                let ghost m = self@;
                if self.pool.pin(id) {
                    proof {
                        assert(self@ == pin_frame(m, id.0 as int));
                        assert forall|f: int|
                            0 <= f < self@.pool.frames.len() implies (#[trigger] self@.pool.frames[f]).resident
                            == m.pool.frames[f].resident by {}
                    }
                    Ok(Fetched { page_id, buffer_id: id, evicted: None })
                } else {
                    Err(BufferError::TooManyPins)
                }
            },
            None => {
                if page_id.0 >= self.disk.next_page_id().0 {
                    return Err(BufferError::PageNotAllocated);
                }
                self.bring_in(page_id, loaded, false)
            },
        }
    }

    /// Allocates the next page identifier and brings that page in, pinned, zero-filled and
    /// dirty. The identifier stays used even when no frame can be freed for it.
    pub fn new_page(&mut self) -> (r: Result<Fetched, BufferError>)
        requires
            old(self).wf(),
        ensures
            final(self).wf(),
            (final(self)@, fetched_view(r)) == new_page_spec(old(self)@),
    {
        if self.disk.next_page_id().0 == u64::MAX {
            return Err(BufferError::OutOfPageIds);
        }
        let page_id = self.disk.allocate_page();
        let data: Vec<u8> = vec![0u8; PAGE_SIZE];
        proof {
            assert(data@ =~= zero_page());
        }
        self.bring_in(page_id, data, true)
    }

    /// Releases one pin of page `page_id`, marking it dirty if `is_dirty`; a dirty page stays
    /// dirty until it is flushed.
    pub fn unpin_page(&mut self, page_id: PageId, is_dirty: bool) -> (r: Result<(), BufferError>)
        requires
            old(self).wf(),
        ensures
            final(self).wf(),
            (final(self)@, r) == unpin_spec(old(self)@, page_id.0, is_dirty),
    {
        let ghost m = self@;
        match self.lookup(page_id) {
            None => Err(BufferError::PageNotResident),
            Some(id) => {
                if self.pool.unpin(id, is_dirty) {
                    proof {
                        let (m2, _r2) = unpin_spec(m, page_id.0, is_dirty);
                        assert(self@.pool.frames =~= m2.pool.frames);
                        assert forall|f: int|
                            0 <= f < self@.pool.frames.len() && f != id.0 implies #[trigger] self@.pool.frames[f]
                            == m.pool.frames[f] by {}
                    }
                    Ok(())
                } else {
                    Err(BufferError::PageNotPinned)
                }
            },
        }
    }

    /// Flushes page `page_id`: when it is resident and dirty, it becomes clean and its bytes
    /// are returned, to be written to the heap file. Otherwise nothing changes.
    pub fn flush_page(&mut self, page_id: PageId) -> (r: Option<Vec<u8>>)
        requires
            old(self).wf(),
        ensures
            final(self).wf(),
            (final(self)@, match r {
                Some(d) => Some(d@),
                None => None,
            }) == flush_spec(old(self)@, page_id.0),
    {
        let ghost m = self@;
        match self.lookup(page_id) {
            None => None,
            Some(id) => {
                let r = self.pool.take_dirty(id);
                proof {
                    let (m2, _r2) = flush_spec(m, page_id.0);
                    assert(self@.pool.frames =~= m2.pool.frames);
                    assert forall|f: int|
                        0 <= f < self@.pool.frames.len() && f != id.0 implies #[trigger] self@.pool.frames[f]
                        == m.pool.frames[f] by {}
                }
                r
            },
        }
    }

    /// Flushes every page: each dirty page becomes clean, and all of them are returned in
    /// frame order, with their identifiers, to be written to the heap file.
    pub fn flush_all(&mut self) -> (r: Vec<(PageId, Vec<u8>)>)
        requires
            old(self).wf(),
        ensures
            final(self).wf(),
            final(self)@ == (ManagerView {
                pool: PoolView {
                    frames: old(self)@.pool.frames.map_values(|f: FrameView| cleaned(f)),
                    cursor: old(self)@.pool.cursor,
                },
                ..old(self)@
            }),
            pages_view(r@) == dirty_pages(old(self)@.pool.frames),
    {
        let ghost m = self@;
        let n = self.pool.size();
        let mut out: Vec<(PageId, Vec<u8>)> = Vec::new();
        let mut i: usize = 0;
        while i < n
            invariant
                0 <= i <= n,
                n == m.pool.frames.len(),
                manager_wf(self@),
                self@.next_page_id == m.next_page_id,
                self@.table == m.table,
                self@.pool.cursor == m.pool.cursor,
                self@.pool.frames.len() == n,
                forall|f: int| 0 <= f < i ==> #[trigger] self@.pool.frames[f] == cleaned(m.pool.frames[f]),
                forall|f: int| i <= f < n ==> #[trigger] self@.pool.frames[f] == m.pool.frames[f],
                pages_view(out@) == dirty_pages(m.pool.frames.take(i as int)),
            decreases n - i,
        {
            let id = BufferId(i as u64);
            let ghost before = self@;
            let page_id = self.pool.page_id(id);
            let taken = self.pool.take_dirty(id);
            proof {
                assert(m.pool.frames.take(i + 1).drop_last() =~= m.pool.frames.take(i as int));
                assert forall|f: int|
                    0 <= f < n && f != i implies #[trigger] self@.pool.frames[f] == before.pool.frames[f] by {}
            }
            match taken {
                Some(data) => {
                    match page_id {
                        Some(pid) => {
                            out.push((pid, data));
                        },
                        None => {},
                    }
                },
                None => {},
            }
            proof {
                assert(pages_view(out@) =~= dirty_pages(m.pool.frames.take(i + 1)));
                assert(self@.pool.frames[i as int] == cleaned(m.pool.frames[i as int]));
            }
            i = i + 1;
        }
        proof {
            assert(m.pool.frames.take(n as int) =~= m.pool.frames);
            assert(self@.pool.frames =~= m.pool.frames.map_values(|f: FrameView| cleaned(f)));
        }
        out
    }

    /// The bytes of page `page_id`, which the caller must hold pinned.
    pub fn page(&self, page_id: PageId) -> (r: Result<&Vec<u8>, BufferError>)
        requires
            self.wf(),
        ensures
            match r {
                Ok(d) => self@.table.contains_key(page_id.0) && self@.pool.frames[self@.table[page_id.0] as int].pins > 0
                    && resident_data(self@, page_id.0) == Some(d@),
                Err(e) => if !self@.table.contains_key(page_id.0) {
                    e == BufferError::PageNotResident
                } else {
                    self@.pool.frames[self@.table[page_id.0] as int].pins == 0 && e == BufferError::PageNotPinned
                },
            },
    {
        match self.lookup(page_id) {
            None => Err(BufferError::PageNotResident),
            Some(id) => {
                if self.pool.pin_count(id) == 0 {
                    return Err(BufferError::PageNotPinned);
                }
                match self.pool.page(id) {
                    Some(d) => Ok(d),
                    None => Err(BufferError::PageNotResident),
                }
            },
        }
    }

    /// Writes `data` over page `page_id`, which the caller must hold pinned. The page is
    /// marked dirty when the caller unpins it saying so.
    pub fn write_page(&mut self, page_id: PageId, data: Vec<u8>) -> (r: Result<(), BufferError>)
        requires
            old(self).wf(),
            data@.len() == PAGE_SIZE,
        ensures
            final(self).wf(),
            (final(self)@, r) == write_spec(old(self)@, page_id.0, data@),
    {
        let ghost m = self@;
        match self.lookup(page_id) {
            None => Err(BufferError::PageNotResident),
            Some(id) => {
                if self.pool.pin_count(id) == 0 {
                    return Err(BufferError::PageNotPinned);
                }
                self.pool.write_page(id, data);
                proof {
                    let (m2, _r2) = write_spec(m, page_id.0, data@);
                    assert(self@.pool.frames =~= m2.pool.frames);
                    assert forall|f: int|
                        0 <= f < self@.pool.frames.len() && f != id.0 implies #[trigger] self@.pool.frames[f]
                        == m.pool.frames[f] by {}
                }
                Ok(())
            },
        }
    }

    /// The pool of frames.
    pub fn pool(&self) -> (r: &BufferPool)
        ensures
            r@ == self@.pool,
            r.wf() == pool_wf(self@.pool),
    {
        &self.pool
    }

    /// The identifier that the next allocation hands out.
    pub fn next_page_id(&self) -> (r: PageId)
        ensures
            r.0 == self@.next_page_id,
    {
        self.disk.next_page_id()
    }

    fn bring_in(&mut self, page_id: PageId, data: Vec<u8>, dirty: bool) -> (r: Result<
        Fetched,
        BufferError,
    >)
        requires
            old(self).wf(),
            data@.len() == PAGE_SIZE,
            !old(self)@.table.contains_key(page_id.0),
            page_id.0 < old(self)@.next_page_id,
        ensures
            final(self).wf(),
            (final(self)@, fetched_view(r)) == bring_in_spec(old(self)@, page_id.0, data@, dirty),
    {
        let ghost m = self@;
        let victim = self.pool.evict();
        match victim {
            None => {
                proof {
                    crate::pool::lemma_no_victim_when_all_pinned(m.pool.frames, m.pool.cursor);
                }
                Err(BufferError::BufferPoolFull)
            },
            Some(v) => {
                let ghost swept = self.pool@;
                let buffer = Buffer { page_id, page: data, is_dirty: dirty };
                let previous = self.pool.install(v, buffer);
                let evicted = match previous {
                    Some(b) => {
                        self.page_table.remove(&b.page_id.0);
                        if b.is_dirty {
                            Some(b)
                        } else {
                            None
                        }
                    },
                    None => None,
                };
                self.page_table.insert(page_id.0, v.0);
                let r = Ok(Fetched { page_id, buffer_id: v, evicted });
                proof {
                    let (m2, r2) = bring_in_spec(m, page_id.0, data@, dirty);
                    assert(self@.pool =~= m2.pool);
                    assert(self@.table =~= m2.table);
                    assert(self@ == m2);
                    assert(fetched_view(r) == r2);
                    self.lemma_bring_in_wf(m, swept, page_id.0, v.0 as int);
                }
                r
            },
        }
    }

    proof fn lemma_bring_in_wf(&self, m: ManagerView, swept: PoolView, p: u64, v: int)
        requires
            manager_wf(m),
            !m.table.contains_key(p),
            p < m.next_page_id,
            0 <= v < m.pool.frames.len(),
            swept.frames.len() == m.pool.frames.len(),
            pool_wf(self@.pool),
            forall|g: int|
                0 <= g < m.pool.frames.len() ==> (#[trigger] swept.frames[g]).resident
                    == m.pool.frames[g].resident,
            self@.next_page_id == m.next_page_id,
            self@.pool.frames == swept.frames.update(
                v,
                FrameView {
                    usage: 1,
                    pins: 1,
                    resident: Some(
                        ResidentPage {
                            id: p,
                            data: self@.pool.frames[v].resident.unwrap().data,
                            dirty: self@.pool.frames[v].resident.unwrap().dirty,
                        },
                    ),
                },
            ),
            self@.table == (match m.pool.frames[v].resident {
                Some(r) => m.table.remove(r.id),
                None => m.table,
            }).insert(p, v as u64),
        ensures
            manager_wf(self@),
    {
        let n = m.pool.frames.len();
        let s = self@;
        assert forall|q: u64| #[trigger] s.table.contains_key(q) implies {
            &&& q < s.next_page_id
            &&& s.table[q] < s.pool.frames.len()
            &&& s.pool.frames[s.table[q] as int].resident matches Some(r) && r.id == q
        } by {
            if q != p {
                assert(m.table.contains_key(q));
                let f = m.table[q] as int;
                if f == v {
                    assert(m.pool.frames[v].resident.unwrap().id == q);
                }
                assert(s.pool.frames[f] == swept.frames[f]);
            }
        }
        assert forall|f: int|
            0 <= f < s.pool.frames.len() && (#[trigger] s.pool.frames[f]).resident is Some implies {
            &&& s.table.contains_key(s.pool.frames[f].resident.unwrap().id)
            &&& s.table[s.pool.frames[f].resident.unwrap().id] == f
        } by {
            if f != v {
                assert(s.pool.frames[f] == swept.frames[f]);
                assert(m.pool.frames[f].resident is Some);
                let q = m.pool.frames[f].resident.unwrap().id;
                assert(m.table.contains_key(q) && m.table[q] == f);
                if let Some(r) = m.pool.frames[v].resident {
                    if r.id == q {
                        assert(m.table[r.id] == v);
                    }
                }
            }
        }
    }
}

/// A page is held by at most one frame: the one that the page table names.
pub proof fn lemma_page_in_one_frame(m: ManagerView, f1: int, f2: int)
    requires
        manager_wf(m),
        0 <= f1 < m.pool.frames.len(),
        0 <= f2 < m.pool.frames.len(),
        m.pool.frames[f1].resident is Some,
        m.pool.frames[f2].resident is Some,
        m.pool.frames[f1].resident.unwrap().id == m.pool.frames[f2].resident.unwrap().id,
    ensures
        f1 == f2,
        m.table[m.pool.frames[f1].resident.unwrap().id] == f1,
{
    assert(m.pool.frames[f1] == m.pool.frames[f1]);
    assert(m.pool.frames[f2] == m.pool.frames[f2]);
}

/// Bringing a page in never takes the frame of a pinned page: every pinned page stays where it
/// is, by fetch as by allocation.
pub proof fn lemma_pinned_pages_stay(m: ManagerView, p: u64, loaded: Seq<u8>)
    requires
        manager_wf(m),
    ensures
        forall|q: u64|
            #[trigger] m.table.contains_key(q) && m.pool.frames[m.table[q] as int].pins > 0 ==> {
                &&& fetch_spec(m, p, loaded).0.table.contains_key(q)
                &&& fetch_spec(m, p, loaded).0.table[q] == m.table[q]
                &&& new_page_spec(m).0.table.contains_key(q)
                &&& new_page_spec(m).0.table[q] == m.table[q]
            },
{
    assert forall|q: u64|
        #[trigger] m.table.contains_key(q) && m.pool.frames[m.table[q] as int].pins > 0 implies {
        &&& fetch_spec(m, p, loaded).0.table.contains_key(q)
        &&& fetch_spec(m, p, loaded).0.table[q] == m.table[q]
        &&& new_page_spec(m).0.table.contains_key(q)
        &&& new_page_spec(m).0.table[q] == m.table[q]
    } by {
        let f = m.table[q] as int;
        if let Some(v) = clock_victim(m.pool.frames, m.pool.cursor) {
            crate::pool::lemma_clock_victim_chosen(m.pool.frames, m.pool.cursor);
            assert(m.pool.frames[v].pins == 0);
            assert(v != f);
            let e = m.pool.frames[v].resident;
            if let Some(r) = e {
                assert(m.table[r.id] == v);
                assert(r.id != q);
            }
        }
    }
}

/// With every frame pinned, a page that is not resident cannot be brought in; as soon as one
/// frame is unpinned, it can.
pub proof fn lemma_full_pool(m: ManagerView, p: u64, loaded: Seq<u8>)
    requires
        manager_wf(m),
        !m.table.contains_key(p),
        p < m.next_page_id,
    ensures
        fetch_spec(m, p, loaded).1 == Err::<FetchedView, BufferError>(BufferError::BufferPoolFull)
            <==> all_pinned(m.pool.frames),
        all_pinned(m.pool.frames) ==> fetch_spec(m, p, loaded).0 == m,
{
    if all_pinned(m.pool.frames) {
        crate::pool::lemma_no_victim_when_all_pinned(m.pool.frames, m.pool.cursor);
    } else {
        crate::pool::lemma_victim_when_some_unpinned(m.pool.frames, m.pool.cursor);
    }
}

} // verus!
