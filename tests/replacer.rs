use pagestore::lru_replacer::LruReplacer;
use pagestore::replacer::LRUKReplacerInternal;

#[test]
fn lruk_prefers_frames_with_fewer_than_k_accesses() {
    let mut r = LRUKReplacerInternal::new(4, 2);
    // A, B, C accessed twice, D once.
    for f in 0..3 {
        r.record_access(f);
        r.record_access(f);
    }
    r.record_access(3);
    for f in 0..4 {
        r.set_evictable(f, true);
    }
    assert_eq!(r.size(), 4);
    assert_eq!(r.evict(), Some(3));
    assert_eq!(r.size(), 3);
    assert_eq!(r.evict(), Some(0));
    assert_eq!(r.evict(), Some(1));
    assert_eq!(r.evict(), Some(2));
    assert_eq!(r.evict(), None);
}

#[test]
fn lruk_ranks_by_kth_most_recent_access() {
    let mut r = LRUKReplacerInternal::new(2, 2);
    r.record_access(0); // t0
    r.record_access(1); // t1
    r.record_access(1); // t2
    r.record_access(0); // t3: frame 0 has (t0, t3), frame 1 has (t1, t2)
    r.set_evictable(0, true);
    r.set_evictable(1, true);
    assert_eq!(r.evict(), Some(0));
}

#[test]
fn lruk_history_keeps_only_k_entries() {
    let mut r = LRUKReplacerInternal::new(2, 2);
    r.record_access(0); // t0
    r.record_access(0); // t1
    r.record_access(1); // t2
    r.record_access(1); // t3
    r.record_access(0); // t4: frame 0 keeps (t1, t4)
    r.set_evictable(0, true);
    r.set_evictable(1, true);
    // kth most recent: frame 0 -> t1, frame 1 -> t2
    assert_eq!(r.evict(), Some(0));
}

#[test]
fn lruk_infinite_distance_ties_break_by_most_recent_access() {
    let mut r = LRUKReplacerInternal::new(3, 3);
    r.record_access(2);
    r.record_access(0);
    r.record_access(1);
    r.record_access(2);
    for f in 0..3 {
        r.set_evictable(f, true);
    }
    assert_eq!(r.evict(), Some(0));
    assert_eq!(r.evict(), Some(1));
    assert_eq!(r.evict(), Some(2));
}

#[test]
fn lruk_pinned_and_untracked_frames_are_never_victims() {
    let mut r = LRUKReplacerInternal::new(3, 2);
    assert_eq!(r.evict(), None);
    r.set_evictable(0, true); // untracked: stays out
    assert_eq!(r.size(), 0);
    r.record_access(0);
    r.record_access(1);
    r.set_evictable(1, true);
    assert_eq!(r.evict(), Some(1));
    assert_eq!(r.evict(), None);
    r.set_evictable(0, true);
    r.set_evictable(0, false);
    assert_eq!(r.evict(), None);
}

#[test]
fn lruk_remove_purges_history() {
    let mut r = LRUKReplacerInternal::new(2, 1);
    r.record_access(0);
    r.record_access(1);
    r.set_evictable(0, true);
    r.set_evictable(1, true);
    r.remove(0);
    assert_eq!(r.size(), 1);
    assert_eq!(r.evict(), Some(1));
    assert_eq!(r.evict(), None);
}

#[test]
fn lruk_with_k_one_is_lru() {
    let mut r = LRUKReplacerInternal::new(3, 1);
    r.record_access(0);
    r.record_access(1);
    r.record_access(2);
    r.record_access(0);
    for f in 0..3 {
        r.set_evictable(f, true);
    }
    assert_eq!(r.k(), 1);
    assert_eq!(r.evict(), Some(1));
    assert_eq!(r.evict(), Some(2));
    assert_eq!(r.evict(), Some(0));
}

#[test]
fn lru_replacer_victim_order() {
    let mut r = LruReplacer::new();
    assert_eq!(r.victim(), None);
    r.unpin(1);
    r.unpin(2);
    r.unpin(3);
    r.unpin(1);
    assert_eq!(r.size(), 3);
    r.pin(2);
    assert_eq!(r.size(), 2);
    assert_eq!(r.victim(), Some(1));
    assert_eq!(r.victim(), Some(3));
    assert_eq!(r.victim(), None);
    assert_eq!(r.size(), 0);
}
