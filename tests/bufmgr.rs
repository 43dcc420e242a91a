use std::collections::HashMap;

use pagestore::bufmgr::{BufferPoolError, BufferPoolInternal, FetchOutcome, PageWrite};
use pagestore::codec::{from_buffer, to_buffer, Song};
use pagestore::page::PageInternal;
use pagestore::shared::{page_offset, PageId, INVALID_PAGE_ID, PAGE_SIZE};

/// Performs the disk side of a fetch against an in-memory disk.
fn fetch(pool: &mut BufferPoolInternal, disk: &mut HashMap<PageId, Vec<u8>>, id: PageId) -> Result<isize, BufferPoolError> {
    match pool.fetch_page(id)? {
        FetchOutcome::Resident(f) => Ok(f),
        FetchOutcome::Load { frame_id, write_back } => {
            if let Some(PageWrite { page_id, data }) = write_back {
                disk.insert(page_id, data);
            }
            let bytes = disk.get(&id).cloned().unwrap_or_else(|| vec![0u8; PAGE_SIZE]);
            pool.load_frame(frame_id, bytes);
            Ok(frame_id)
        }
    }
}

fn flush(pool: &mut BufferPoolInternal, disk: &mut HashMap<PageId, Vec<u8>>, id: PageId) {
    let w = pool.flush_page(id).unwrap();
    disk.insert(w.page_id, w.data);
    pool.complete_flush(id);
}

#[test]
fn create() {
    let pool = BufferPoolInternal::new(10, 1);
    assert!(pool.pool_size() == 10);
    assert_eq!(pool.replacer_k(), 1);
    for f in 0..10 {
        assert_eq!(pool.page(f).get_id(), INVALID_PAGE_ID);
    }
}

#[test]
fn full_bufmgr_test() {
    let mut disk: HashMap<PageId, Vec<u8>> = HashMap::new();
    let songs = [
        Song::new(1, "Afraid", "The Neighbourhood"),
        Song::new(2, "Reflections", "The Neighbourhood"),
        Song::new(3, "Chlorine", "21 Pilots"),
        Song::new(4, "Nervous", "The Neighbourhood"),
    ];
    for s in songs.iter() {
        disk.insert(s.id as isize, to_buffer(s).unwrap());
    }
    let mut pool = BufferPoolInternal::new(2, 2);
    for s in songs.iter() {
        let f = fetch(&mut pool, &mut disk, s.id as isize).unwrap();
        let back = from_buffer(&pool.page(f).get_data()).unwrap();
        assert_eq!(back.id, s.id);
        assert_eq!(back.title, s.title);
        assert_eq!(back.artist, s.artist);
        assert!(pool.unpin_page(s.id as isize, false));
    }
    assert!(pool.lookup(1).is_none());
    assert!(pool.lookup(4).is_some());
}

#[test]
fn durability_round_trip() {
    let mut disk: HashMap<PageId, Vec<u8>> = HashMap::new();
    let mut pool = BufferPoolInternal::new(1, 2);
    let np = pool.new_page().unwrap();
    assert_eq!(np.page_id, 0);
    let f = fetch(&mut pool, &mut disk, np.page_id).unwrap();
    assert_eq!(f, np.frame_id);
    let data = to_buffer(&Song::new(9, "Helium", "Glass Animals")).unwrap();
    pool.write_frame(f, data.clone());
    assert!(pool.page(f).is_dirty());
    assert!(pool.unpin_page(np.page_id, true));
    assert!(pool.unpin_page(np.page_id, true));
    flush(&mut pool, &mut disk, np.page_id);
    assert!(!pool.page(f).is_dirty());
    // force eviction
    let g = fetch(&mut pool, &mut disk, 5).unwrap();
    assert!(pool.lookup(np.page_id).is_none());
    assert!(pool.unpin_page(5, false));
    let _ = g;
    let h = fetch(&mut pool, &mut disk, np.page_id).unwrap();
    assert_eq!(pool.page(h).get_data(), data);
}

#[test]
fn dirty_victim_is_written_back() {
    let mut pool = BufferPoolInternal::new(1, 1);
    let np = pool.new_page().unwrap();
    assert!(np.write_back.is_none());
    pool.write_frame(np.frame_id, vec![7u8; PAGE_SIZE]);
    assert!(pool.unpin_page(np.page_id, true));
    match pool.fetch_page(3).unwrap() {
        FetchOutcome::Load { frame_id, write_back } => {
            assert_eq!(frame_id, np.frame_id);
            let w = write_back.unwrap();
            assert_eq!(w.page_id, np.page_id);
            assert_eq!(w.data, vec![7u8; PAGE_SIZE]);
        }
        FetchOutcome::Resident(_) => panic!("page 3 was not resident"),
    }
}

#[test]
fn tie_break_evicts_earlier_single_access() {
    let mut disk: HashMap<PageId, Vec<u8>> = HashMap::new();
    let mut pool = BufferPoolInternal::new(2, 2);
    let f1 = fetch(&mut pool, &mut disk, 1).unwrap();
    assert!(pool.unpin_page(1, false));
    fetch(&mut pool, &mut disk, 2).unwrap();
    assert!(pool.unpin_page(2, false));
    let f3 = fetch(&mut pool, &mut disk, 3).unwrap();
    assert_eq!(f3, f1);
    assert!(pool.lookup(1).is_none());
    assert!(pool.lookup(2).is_some());
}

#[test]
fn delete_of_pinned_page_is_in_use() {
    let mut disk: HashMap<PageId, Vec<u8>> = HashMap::new();
    let mut pool = BufferPoolInternal::new(2, 2);
    let f = fetch(&mut pool, &mut disk, 4).unwrap();
    assert_eq!(pool.page(f).get_pin_count(), 1);
    assert_eq!(pool.delete_page(4), Err(BufferPoolError::InUse));
    assert_eq!(pool.lookup(4), Some(f));
    assert_eq!(pool.page(f).get_pin_count(), 1);
    // the other frame is still free, the pinned one is still not evictable
    let g = fetch(&mut pool, &mut disk, 5).unwrap();
    assert_ne!(g, f);
    assert!(matches!(pool.fetch_page(6), Err(BufferPoolError::OutOfMemory)));
    assert!(pool.unpin_page(4, false));
    assert_eq!(pool.delete_page(4), Ok(()));
    assert!(pool.lookup(4).is_none());
    assert_eq!(pool.page(f).get_id(), INVALID_PAGE_ID);
    assert_eq!(pool.delete_page(4), Ok(()));
}

#[test]
fn out_of_memory_when_every_frame_is_pinned() {
    let mut disk: HashMap<PageId, Vec<u8>> = HashMap::new();
    let mut pool = BufferPoolInternal::new(2, 2);
    fetch(&mut pool, &mut disk, 1).unwrap();
    fetch(&mut pool, &mut disk, 2).unwrap();
    assert!(matches!(pool.fetch_page(3), Err(BufferPoolError::OutOfMemory)));
    assert!(matches!(pool.new_page(), Err(BufferPoolError::OutOfMemory)));
    // a hit still succeeds
    assert!(matches!(pool.fetch_page(1), Ok(FetchOutcome::Resident(_))));
    assert_eq!(pool.page(pool.lookup(1).unwrap()).get_pin_count(), 2);
}

#[test]
fn distinct_pages_get_distinct_frames() {
    let mut disk: HashMap<PageId, Vec<u8>> = HashMap::new();
    let mut pool = BufferPoolInternal::new(3, 2);
    for round in 0..4 {
        for p in 0..3 {
            let id = (round * 3 + p) as isize;
            fetch(&mut pool, &mut disk, id).unwrap();
            assert!(pool.unpin_page(id, round % 2 == 0));
        }
        let frames: Vec<isize> = (0..3).map(|p| pool.lookup((round * 3 + p) as isize).unwrap()).collect();
        assert_ne!(frames[0], frames[1]);
        assert_ne!(frames[1], frames[2]);
        assert_ne!(frames[0], frames[2]);
    }
}

#[test]
fn unpin_accumulates_dirty_and_rejects_unpinned() {
    let mut disk: HashMap<PageId, Vec<u8>> = HashMap::new();
    let mut pool = BufferPoolInternal::new(1, 2);
    assert!(!pool.unpin_page(8, false));
    let f = fetch(&mut pool, &mut disk, 8).unwrap();
    fetch(&mut pool, &mut disk, 8).unwrap();
    assert!(pool.unpin_page(8, true));
    assert!(pool.unpin_page(8, false));
    assert!(pool.page(f).is_dirty());
    assert!(!pool.unpin_page(8, false));
}

#[test]
fn new_page_ids_are_fresh_and_increasing() {
    let mut disk: HashMap<PageId, Vec<u8>> = HashMap::new();
    let mut pool = BufferPoolInternal::new(4, 2);
    let a = pool.new_page().unwrap();
    fetch(&mut pool, &mut disk, 5).unwrap();
    let b = pool.new_page().unwrap();
    assert_eq!(a.page_id, 0);
    assert_eq!(b.page_id, 6);
    assert_eq!(pool.next_page_id(), 7);
    assert_eq!(pool.page(b.frame_id).get_data(), vec![0u8; PAGE_SIZE]);
    assert_eq!(pool.page(b.frame_id).get_pin_count(), 1);
}

#[test]
fn flush_all_lists_resident_pages_in_frame_order() {
    let mut disk: HashMap<PageId, Vec<u8>> = HashMap::new();
    let mut pool = BufferPoolInternal::new(3, 2);
    fetch(&mut pool, &mut disk, 10).unwrap();
    fetch(&mut pool, &mut disk, 11).unwrap();
    let writes = pool.flush_all();
    let ids: Vec<isize> = writes.iter().map(|w| w.page_id).collect();
    assert_eq!(ids, vec![10, 11]);
    assert!(pool.flush_page(12).is_none());
}

#[test]
fn empty_page_defaults() {
    let p = PageInternal::new();
    assert_eq!(p.get_id(), INVALID_PAGE_ID);
    assert_eq!(p.get_pin_count(), 0);
    assert!(!p.is_dirty());
    assert_eq!(p.get_data(), vec![0u8; PAGE_SIZE]);
}

#[test]
fn page_offsets() {
    assert_eq!(page_offset(0), 0);
    assert_eq!(page_offset(1), 4096);
    assert_eq!(page_offset(3), 12288);
}

#[test]
fn object_ptr_starts_at_zero() {
    let p = pagestore::objptr::ObjectPtr::new();
    assert_eq!(p.loc, 0);
}
