use vstd::prelude::*;

use crate::manager::{
    bring_in_spec, BufferError, fetch_spec, flush_spec, manager_wf, new_page_spec, resident_data, unpin_spec,
    write_spec, zero_page, FetchedView, ManagerView,
};
use crate::pool::{after_sweep, clock_victim, ResidentPage};

verus! {

/// The heap file after the caller has written back the page a fetch evicted.
pub open spec fn written_back(disk: Map<u64, Seq<u8>>, r: Result<FetchedView, BufferError>) -> Map<
    u64,
    Seq<u8>,
> {
    match r {
        Ok(f) => match f.evicted {
            Some(e) => disk.insert(e.id, e.data),
            None => disk,
        },
        Err(_) => disk,
    }
}

/// The heap file after the caller has written what a flush of page `p` handed out.
pub open spec fn flushed_to(disk: Map<u64, Seq<u8>>, p: u64, out: Option<Seq<u8>>) -> Map<u64, Seq<u8>> {
    match out {
        Some(d) => disk.insert(p, d),
        None => disk,
    }
}

/// Every clean resident page holds what the heap file holds for it.
pub open spec fn coherent(m: ManagerView, disk: Map<u64, Seq<u8>>) -> bool {
    forall|p: u64|
        #[trigger] m.table.contains_key(p) && !m.pool.frames[m.table[p] as int].resident.unwrap().dirty
            ==> disk.contains_key(p) && disk[p] == m.pool.frames[m.table[p] as int].resident.unwrap().data
}

/// What a reader of page `p` gets: the bytes in the pool if it is resident, else those in the
/// heap file.
pub open spec fn content(m: ManagerView, disk: Map<u64, Seq<u8>>, p: u64) -> Option<Seq<u8>> {
    if m.table.contains_key(p) {
        resident_data(m, p)
    } else if disk.contains_key(p) {
        Some(disk[p])
    } else {
        None
    }
}

proof fn lemma_bring_in_keeps(
    m: ManagerView,
    disk: Map<u64, Seq<u8>>,
    p: u64,
    data: Seq<u8>,
    dirty: bool,
)
    requires
        manager_wf(m),
        coherent(m, disk),
        !m.table.contains_key(p),
        !dirty ==> disk.contains_key(p) && disk[p] == data,
    ensures
        ({
            let (m2, r) = bring_in_spec(m, p, data, dirty);
            let disk2 = written_back(disk, r);
            &&& coherent(m2, disk2)
            &&& forall|q: u64| q != p ==> #[trigger] content(m2, disk2, q) == content(m, disk, q)
            &&& r is Ok ==> resident_data(m2, p) == Some(data)
            &&& !dirty ==> disk2.contains_key(p) && disk2[p] == data
            &&& forall|q: u64|
                #[trigger] m.table.contains_key(q) && !m2.table.contains_key(q) ==> disk2.contains_key(q)
                    && disk2[q] == resident_data(m, q).unwrap()
        }),
{
    let (m2, r) = bring_in_spec(m, p, data, dirty);
    let disk2 = written_back(disk, r);
    match clock_victim(m.pool.frames, m.pool.cursor) {
        None => {},
        Some(v) => {
            let swept = after_sweep(m.pool.frames, m.pool.cursor, v);
            assert(swept[v].resident == m.pool.frames[v].resident);
            assert forall|q: u64|
                #[trigger] m.table.contains_key(q) && m.table[q] != v implies m2.table.contains_key(q)
                && m2.table[q] == m.table[q] && m2.pool.frames[m.table[q] as int].resident
                == m.pool.frames[m.table[q] as int].resident by {
                let f = m.table[q] as int;
                assert(swept[f].resident == m.pool.frames[f].resident);
                if let Some(e) = m.pool.frames[v].resident {
                    if e.id == q {
                        assert(m.table[e.id] == v);
                    }
                }
            }
            assert forall|q: u64|
                #[trigger] m.table.contains_key(q) && m.table[q] == v implies q == m.pool.frames[v].resident.unwrap().id
                && !m2.table.contains_key(q) || q == p by {}
            assert forall|q: u64| q != p implies #[trigger] content(m2, disk2, q) == content(m, disk, q) by {
                if m.table.contains_key(q) && m.table[q] == v {
                    let e = m.pool.frames[v].resident.unwrap();
                    assert(q == e.id);
                    assert(!m2.table.contains_key(q));
                }
            }
            assert forall|q: u64|
                #[trigger] m2.table.contains_key(q) && !m2.pool.frames[m2.table[q] as int].resident.unwrap().dirty
                implies disk2.contains_key(q) && disk2[q] == m2.pool.frames[m2.table[q] as int].resident.unwrap().data by {
                if q != p {
                    assert(m.table.contains_key(q));
                }
            }
            assert forall|q: u64|
                #[trigger] m.table.contains_key(q) && !m2.table.contains_key(q) implies disk2.contains_key(q)
                && disk2[q] == resident_data(m, q).unwrap() by {
                assert(m.table[q] == v);
            }
        },
    }
}

/// Fetching a page keeps what every page holds, once the caller has written back the page that
/// the fetch evicted; the fetched page then holds what a reader saw before, and a page that
/// leaves the pool is in the heap file as it was in memory.
pub proof fn lemma_fetch_keeps_contents(
    m: ManagerView,
    disk: Map<u64, Seq<u8>>,
    p: u64,
    loaded: Seq<u8>,
)
    requires
        manager_wf(m),
        coherent(m, disk),
        !m.table.contains_key(p) ==> disk.contains_key(p) && loaded == disk[p],
    ensures
        ({
            let (m2, r) = fetch_spec(m, p, loaded);
            let disk2 = written_back(disk, r);
            &&& coherent(m2, disk2)
            &&& forall|q: u64| #[trigger] content(m2, disk2, q) == content(m, disk, q)
            &&& r is Ok ==> resident_data(m2, p) == content(m, disk, p)
            &&& forall|q: u64|
                #[trigger] m.table.contains_key(q) && !m2.table.contains_key(q) ==> disk2.contains_key(q)
                    && disk2[q] == resident_data(m, q).unwrap()
        }),
{
    let (m2, r) = fetch_spec(m, p, loaded);
    let disk2 = written_back(disk, r);
    if m.table.contains_key(p) {
        let f = m.table[p] as int;
        assert forall|q: u64| #[trigger] m.table.contains_key(q) implies m2.pool.frames[m.table[q] as int].resident
            == m.pool.frames[m.table[q] as int].resident by {}
        assert forall|q: u64| #[trigger] content(m2, disk2, q) == content(m, disk, q) by {
            if m.table.contains_key(q) {
                assert(m2.pool.frames[m.table[q] as int].resident == m.pool.frames[m.table[q] as int].resident);
            }
        }
    } else if p < m.next_page_id {
        lemma_bring_in_keeps(m, disk, p, loaded, false);
        assert forall|q: u64| #[trigger] content(m2, disk2, q) == content(m, disk, q) by {
            if q == p && r is Ok {
                assert(resident_data(m2, p) == Some(loaded));
            }
        }
    }
}

/// Allocating a page keeps what every other page holds, once the caller has written back the
/// page that was evicted; the new page holds zeros.
pub proof fn lemma_new_page_keeps_contents(m: ManagerView, disk: Map<u64, Seq<u8>>)
    requires
        manager_wf(m),
        coherent(m, disk),
    ensures
        ({
            let (m2, r) = new_page_spec(m);
            let disk2 = written_back(disk, r);
            &&& coherent(m2, disk2)
            &&& forall|q: u64| q != m.next_page_id ==> #[trigger] content(m2, disk2, q) == content(m, disk, q)
            &&& r matches Ok(f) ==> f.page_id == m.next_page_id && resident_data(m2, f.page_id) == Some(zero_page())
            &&& forall|q: u64|
                #[trigger] m.table.contains_key(q) && !m2.table.contains_key(q) ==> disk2.contains_key(q)
                    && disk2[q] == resident_data(m, q).unwrap()
        }),
{
    if m.next_page_id < u64::MAX {
        let m1 = ManagerView { next_page_id: m.next_page_id + 1, ..m };
        lemma_bring_in_keeps(m1, disk, m.next_page_id as u64, zero_page(), true);
    }
}

/// Flushing a page keeps what every page holds, once the caller has written what the flush
/// handed out.
pub proof fn lemma_flush_keeps_contents(m: ManagerView, disk: Map<u64, Seq<u8>>, p: u64)
    requires
        manager_wf(m),
        coherent(m, disk),
    ensures
        ({
            let (m2, out) = flush_spec(m, p);
            let disk2 = flushed_to(disk, p, out);
            &&& coherent(m2, disk2)
            &&& forall|q: u64| #[trigger] content(m2, disk2, q) == content(m, disk, q)
        }),
{
    let (m2, out) = flush_spec(m, p);
    let disk2 = flushed_to(disk, p, out);
    assert forall|q: u64| #[trigger] m.table.contains_key(q) && q != p implies m2.pool.frames[m.table[q] as int]
        == m.pool.frames[m.table[q] as int] by {}
    assert forall|q: u64| #[trigger] content(m2, disk2, q) == content(m, disk, q) by {}
}

/// Writing `c` over a pinned page and releasing it as dirty makes `c` what the page holds and
/// keeps every other page as it was.
pub proof fn lemma_write_then_unpin_dirty(m: ManagerView, disk: Map<u64, Seq<u8>>, p: u64, c: Seq<u8>)
    requires
        manager_wf(m),
        coherent(m, disk),
        write_spec(m, p, c).1 is Ok,
    ensures
        ({
            let m1 = write_spec(m, p, c).0;
            let (m2, r) = unpin_spec(m1, p, true);
            &&& r is Ok
            &&& coherent(m2, disk)
            &&& content(m2, disk, p) == Some(c)
            &&& forall|q: u64| q != p ==> #[trigger] content(m2, disk, q) == content(m, disk, q)
        }),
{
    let m1 = write_spec(m, p, c).0;
    let (m2, r) = unpin_spec(m1, p, true);
    assert forall|q: u64| #[trigger] m.table.contains_key(q) && q != p implies m2.pool.frames[m.table[q] as int]
        == m.pool.frames[m.table[q] as int] by {}
    assert forall|q: u64| q != p implies #[trigger] content(m2, disk, q) == content(m, disk, q) by {}
}

/// A page written with `c` and released dirty, then flushed, then pushed out of the pool by the
/// fetch of another page, holds `c` when it is fetched again from the heap file.
pub proof fn lemma_round_trip(
    m0: ManagerView,
    disk0: Map<u64, Seq<u8>>,
    p: u64,
    c: Seq<u8>,
    m2: ManagerView,
    m3: ManagerView,
    flushed: Option<Seq<u8>>,
    q: u64,
    loaded: Seq<u8>,
    m4: ManagerView,
    r4: Result<FetchedView, BufferError>,
    m5: ManagerView,
    r5: Result<FetchedView, BufferError>,
)
    requires
        manager_wf(m0),
        manager_wf(m2),
        manager_wf(m3),
        manager_wf(m4),
        coherent(m0, disk0),
        write_spec(m0, p, c).1 is Ok,
        m2 == unpin_spec(write_spec(m0, p, c).0, p, true).0,
        (m3, flushed) == flush_spec(m2, p),
        !m3.table.contains_key(q) ==> flushed_to(disk0, p, flushed).contains_key(q) && loaded
            == flushed_to(disk0, p, flushed)[q],
        (m4, r4) == fetch_spec(m3, q, loaded),
        !m4.table.contains_key(p),
        (m5, r5) == fetch_spec(m4, p, written_back(flushed_to(disk0, p, flushed), r4)[p]),
        r5 is Ok,
    ensures
        resident_data(m5, p) == Some(c),
{
    lemma_write_then_unpin_dirty(m0, disk0, p, c);
    lemma_flush_keeps_contents(m2, disk0, p);
    let disk3 = flushed_to(disk0, p, flushed);
    lemma_fetch_keeps_contents(m3, disk3, q, loaded);
    let disk4 = written_back(disk3, r4);
    assert(content(m4, disk4, p) == Some(c));
    lemma_fetch_keeps_contents(m4, disk4, p, disk4[p]);
}

/// A page written with `c` and released dirty, then pushed out of the pool with no flush, is in
/// the heap file with `c` once the caller has written back what the fetch evicted.
pub proof fn lemma_dirty_page_written_back(
    m0: ManagerView,
    disk0: Map<u64, Seq<u8>>,
    p: u64,
    c: Seq<u8>,
    m2: ManagerView,
    q: u64,
    loaded: Seq<u8>,
    m3: ManagerView,
    r3: Result<FetchedView, BufferError>,
)
    requires
        manager_wf(m0),
        manager_wf(m2),
        coherent(m0, disk0),
        write_spec(m0, p, c).1 is Ok,
        m2 == unpin_spec(write_spec(m0, p, c).0, p, true).0,
        !m2.table.contains_key(q) ==> disk0.contains_key(q) && loaded == disk0[q],
        (m3, r3) == fetch_spec(m2, q, loaded),
        !m3.table.contains_key(p),
    ensures
        written_back(disk0, r3).contains_key(p),
        written_back(disk0, r3)[p] == c,
{
    lemma_write_then_unpin_dirty(m0, disk0, p, c);
    lemma_fetch_keeps_contents(m2, disk0, q, loaded);
    assert(m2.table.contains_key(p));
}

} // verus!
