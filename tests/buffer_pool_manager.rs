use buffer_pool::{
    page_offset, BufferError, BufferId, BufferPool, BufferPoolManager, DiskManager, PageId,
    PAGE_SIZE,
};

/// Pages of a heap file kept in memory, written and read as the manager's owner would.
struct MemoryFile {
    pages: Vec<Vec<u8>>,
}

impl MemoryFile {
    fn with_pages(n: usize) -> MemoryFile {
        MemoryFile { pages: (0..n).map(|i| vec![i as u8; PAGE_SIZE]).collect() }
    }

    fn read(&self, page_id: PageId) -> Result<Vec<u8>, BufferError> {
        self.pages.get(page_id.0 as usize).cloned().ok_or(BufferError::Io)
    }

    fn write(&mut self, page_id: PageId, data: &[u8]) {
        let i = page_id.0 as usize;
        while self.pages.len() <= i {
            self.pages.push(vec![0; PAGE_SIZE]);
        }
        self.pages[i] = data.to_vec();
    }
}

fn manager(file: &MemoryFile, pool_size: usize) -> BufferPoolManager {
    let size = (file.pages.len() * PAGE_SIZE) as u64;
    BufferPoolManager::new(DiskManager::new(size), pool_size)
}

fn fetch(m: &mut BufferPoolManager, file: &mut MemoryFile, id: PageId) -> Result<BufferId, BufferError> {
    let loaded = if m.lookup(id).is_some() { vec![0; PAGE_SIZE] } else { file.read(id)? };
    let fetched = m.fetch_page(id, loaded)?;
    if let Some(b) = fetched.evicted {
        file.write(b.page_id, &b.page);
    }
    Ok(fetched.buffer_id)
}

fn flush(m: &mut BufferPoolManager, file: &mut MemoryFile, id: PageId) {
    if let Some(data) = m.flush_page(id) {
        file.write(id, &data);
    }
}

#[test]
fn fetch_reads_loaded_bytes_and_pins() {
    let mut file = MemoryFile::with_pages(2);
    let mut m = manager(&file, 2);
    let f = fetch(&mut m, &mut file, PageId(1)).unwrap();
    assert_eq!(m.page(PageId(1)).unwrap(), &vec![1u8; PAGE_SIZE]);
    assert_eq!(m.pool().pin_count(f), 1);
    assert_eq!(m.pool().usage_count(f), 1);
    let again = fetch(&mut m, &mut file, PageId(1)).unwrap();
    assert_eq!(again, f);
    assert_eq!(m.pool().pin_count(f), 2);
    assert_eq!(m.pool().usage_count(f), 2);
}

#[test]
fn round_trip_through_the_file() {
    let mut file = MemoryFile::with_pages(4);
    let mut m = manager(&file, 2);
    let p = PageId(0);
    fetch(&mut m, &mut file, p).unwrap();
    let content = vec![0xAB; PAGE_SIZE];
    m.write_page(p, content.clone()).unwrap();
    m.unpin_page(p, true).unwrap();
    flush(&mut m, &mut file, p);
    assert_eq!(file.pages[0], content);
    for other in 1..4 {
        fetch(&mut m, &mut file, PageId(other)).unwrap();
        m.unpin_page(PageId(other), false).unwrap();
    }
    assert_eq!(m.lookup(p), None);
    fetch(&mut m, &mut file, p).unwrap();
    assert_eq!(m.page(p).unwrap(), &content);
}

#[test]
fn dirty_page_is_written_back_when_evicted() {
    let mut file = MemoryFile::with_pages(3);
    let mut m = manager(&file, 1);
    let p = PageId(2);
    fetch(&mut m, &mut file, p).unwrap();
    m.write_page(p, vec![7; PAGE_SIZE]).unwrap();
    m.unpin_page(p, true).unwrap();
    let fetched = m.fetch_page(PageId(0), file.read(PageId(0)).unwrap()).unwrap();
    let evicted = fetched.evicted.expect("the dirty page must be handed back");
    assert_eq!(evicted.page_id, p);
    assert_eq!(evicted.page, vec![7; PAGE_SIZE]);
    file.write(evicted.page_id, &evicted.page);
    assert_eq!(file.pages[2], vec![7; PAGE_SIZE]);
}

#[test]
fn clean_page_is_not_handed_back_when_evicted() {
    let mut file = MemoryFile::with_pages(2);
    let mut m = manager(&file, 1);
    fetch(&mut m, &mut file, PageId(0)).unwrap();
    m.unpin_page(PageId(0), false).unwrap();
    let fetched = m.fetch_page(PageId(1), file.read(PageId(1)).unwrap()).unwrap();
    assert!(fetched.evicted.is_none());
    assert_eq!(m.lookup(PageId(0)), None);
}

#[test]
fn full_pool_refuses_until_a_page_is_unpinned() {
    let mut file = MemoryFile::with_pages(4);
    let mut m = manager(&file, 3);
    for i in 0..3 {
        fetch(&mut m, &mut file, PageId(i)).unwrap();
    }
    assert_eq!(fetch(&mut m, &mut file, PageId(3)), Err(BufferError::BufferPoolFull));
    assert_eq!(m.lookup(PageId(3)), None);
    m.unpin_page(PageId(1), false).unwrap();
    let f = fetch(&mut m, &mut file, PageId(3)).unwrap();
    assert_eq!(f, BufferId(1));
    assert_eq!(m.lookup(PageId(1)), None);
    assert_eq!(m.lookup(PageId(0)), Some(BufferId(0)));
    assert_eq!(m.lookup(PageId(2)), Some(BufferId(2)));
}

#[test]
fn clock_gives_every_page_a_second_chance() {
    let mut file = MemoryFile::with_pages(6);
    let mut m = manager(&file, 3);
    for i in 0..3 {
        fetch(&mut m, &mut file, PageId(i)).unwrap();
        m.unpin_page(PageId(i), false).unwrap();
    }
    for f in 0..3 {
        assert_eq!(m.pool().usage_count(BufferId(f)), 1);
    }
    assert_eq!(m.pool().next_victim(), BufferId(0));
    // The sweep takes one usage from each of A, B and C before it takes A.
    let d = fetch(&mut m, &mut file, PageId(3)).unwrap();
    assert_eq!(d, BufferId(0));
    assert_eq!(m.pool().usage_count(BufferId(1)), 0);
    assert_eq!(m.pool().usage_count(BufferId(2)), 0);
    assert_eq!(m.pool().next_victim(), BufferId(1));
    m.unpin_page(PageId(3), false).unwrap();
    let e = fetch(&mut m, &mut file, PageId(4)).unwrap();
    assert_eq!(e, BufferId(1));
    m.unpin_page(PageId(4), false).unwrap();
    let f = fetch(&mut m, &mut file, PageId(5)).unwrap();
    assert_eq!(f, BufferId(2));
    assert_eq!(m.lookup(PageId(0)), None);
    assert_eq!(m.lookup(PageId(1)), None);
    assert_eq!(m.lookup(PageId(2)), None);
}

#[test]
fn evict_on_pool_directly() {
    let mut pool = BufferPool::new(2);
    assert_eq!(pool.size(), 2);
    assert_eq!(pool.evict(), Some(BufferId(0)));
    assert_eq!(pool.next_victim(), BufferId(1));
    assert_eq!(pool.evict(), Some(BufferId(1)));
    assert_eq!(pool.next_victim(), BufferId(0));
    assert_eq!(BufferPool::new(0).evict(), None);
}

#[test]
fn new_page_is_zeroed_dirty_and_numbered_after_the_file() {
    let mut file = MemoryFile::with_pages(2);
    let mut m = manager(&file, 2);
    let fetched = m.new_page().unwrap();
    assert_eq!(fetched.page_id, PageId(2));
    assert!(fetched.evicted.is_none());
    assert_eq!(m.page(PageId(2)).unwrap(), &vec![0u8; PAGE_SIZE]);
    assert!(m.pool().is_dirty(fetched.buffer_id));
    assert_eq!(m.pool().page_id(fetched.buffer_id), Some(PageId(2)));
    assert_eq!(m.next_page_id(), PageId(3));
    m.unpin_page(PageId(2), false).unwrap();
    let written = m.flush_all();
    assert_eq!(written, vec![(PageId(2), vec![0u8; PAGE_SIZE])]);
    for (id, data) in &written {
        file.write(*id, data);
    }
    assert_eq!(file.pages.len(), 3);
    assert!(m.flush_all().is_empty());
}

#[test]
fn new_page_on_full_pool_still_uses_an_identifier() {
    let file = MemoryFile::with_pages(0);
    let mut m = manager(&file, 1);
    assert_eq!(m.new_page().unwrap().page_id, PageId(0));
    assert_eq!(m.new_page().err(), Some(BufferError::BufferPoolFull));
    assert_eq!(m.next_page_id(), PageId(2));
}

#[test]
fn unpin_reports_misuse() {
    let mut file = MemoryFile::with_pages(1);
    let mut m = manager(&file, 1);
    assert_eq!(m.unpin_page(PageId(0), false), Err(BufferError::PageNotResident));
    fetch(&mut m, &mut file, PageId(0)).unwrap();
    assert_eq!(m.unpin_page(PageId(0), false), Ok(()));
    assert_eq!(m.unpin_page(PageId(0), false), Err(BufferError::PageNotPinned));
    assert_eq!(m.page(PageId(0)), Err(BufferError::PageNotPinned));
    assert_eq!(m.write_page(PageId(0), vec![0; PAGE_SIZE]), Err(BufferError::PageNotPinned));
    assert_eq!(m.page(PageId(5)), Err(BufferError::PageNotResident));
}

#[test]
fn dirty_flag_is_sticky_until_flushed() {
    let mut file = MemoryFile::with_pages(1);
    let mut m = manager(&file, 1);
    let f = fetch(&mut m, &mut file, PageId(0)).unwrap();
    fetch(&mut m, &mut file, PageId(0)).unwrap();
    m.unpin_page(PageId(0), true).unwrap();
    m.unpin_page(PageId(0), false).unwrap();
    assert!(m.pool().is_dirty(f));
    assert_eq!(m.flush_page(PageId(0)), Some(vec![0u8; PAGE_SIZE]));
    assert!(!m.pool().is_dirty(f));
    assert_eq!(m.flush_page(PageId(0)), None);
    assert_eq!(m.flush_page(PageId(9)), None);
}

#[test]
fn fetch_of_unallocated_page_is_refused() {
    let mut m = BufferPoolManager::new(DiskManager::new(PAGE_SIZE as u64), 2);
    assert_eq!(m.fetch_page(PageId(1), vec![0; PAGE_SIZE]).err(), Some(BufferError::PageNotAllocated));
    assert!(m.fetch_page(PageId(0), vec![0; PAGE_SIZE]).is_ok());
}

#[test]
fn allocation_starts_after_whole_pages_and_increases() {
    let mut disk = DiskManager::new(2 * PAGE_SIZE as u64 + 100);
    assert_eq!(disk.next_page_id(), PageId(2));
    let ids: Vec<PageId> = (0..3).map(|_| disk.allocate_page()).collect();
    assert_eq!(ids, vec![PageId(2), PageId(3), PageId(4)]);
    assert_eq!(DiskManager::new(0).next_page_id(), PageId(0));
    assert_eq!(DiskManager::new(PAGE_SIZE as u64 - 1).next_page_id(), PageId(0));
}

#[test]
fn page_offsets() {
    assert_eq!(page_offset(PageId(0)), Some(0));
    assert_eq!(page_offset(PageId(3)), Some(12288));
    assert_eq!(page_offset(PageId(u64::MAX)), None);
    assert_eq!(PageId(9).to_u64(), 9);
}
