use spessartine::cover_cache::CoverCache;

#[test]
fn covers_are_held_and_evicted_oldest_first() {
    let mut c: CoverCache<u32> = CoverCache::new();
    assert!(c.start_loading("a"));
    assert!(!c.start_loading("a"));
    assert!(c.is_loading("a"));
    c.receive("a", 1, 10, 10, 2);
    assert!(!c.is_loading("a"));
    assert!(!c.start_loading("a"));
    c.receive("b", 2, 10, 10, 2);
    c.receive("c", 3, 10, 10, 2);
    assert!(!c.contains("a"));
    assert_eq!(c.get("b"), Some(&2));
    assert_eq!(c.get("c"), Some(&3));
}

#[test]
fn empty_covers_are_not_held() {
    let mut c: CoverCache<u32> = CoverCache::new();
    c.start_loading("x");
    c.receive("x", 1, 0, 10, 5);
    assert!(!c.contains("x"));
    assert!(!c.is_loading("x"));
}

#[test]
fn a_cover_that_comes_again_replaces_the_old_one() {
    let mut c: CoverCache<u32> = CoverCache::new();
    c.receive("a", 1, 1, 1, 3);
    c.receive("a", 5, 1, 1, 3);
    assert_eq!(c.get("a"), Some(&5));
}

#[test]
fn a_stale_order_entry_can_evict_the_newest_cover() {
    let mut c: CoverCache<u32> = CoverCache::new();
    c.receive("k", 1, 1, 1, 2);
    c.receive("k", 2, 1, 1, 2);
    c.receive("b", 3, 1, 1, 2);
    c.receive("c", 4, 1, 1, 2);
    // "k" went through its first listing; its second listing stays first
    assert!(!c.contains("k"));
    c.receive("k", 5, 1, 1, 2);
    // the first listed key still held is "k" itself, which goes again
    assert!(!c.contains("k"));
    assert_eq!(c.get("b"), Some(&3));
    assert_eq!(c.get("c"), Some(&4));
}
