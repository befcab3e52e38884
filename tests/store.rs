use storage_cache::lru::LruStore;

#[test]
fn put_then_get_hits() {
    let mut s: LruStore<u32> = LruStore::new(3);
    let ev = s.put("a".to_string(), 1, 1);
    assert!(ev.is_empty());
    assert_eq!(s.get("a"), Some(&1));
    assert_eq!(s.get("b"), None);
    assert_eq!(s.len(), 1);
    assert_eq!(s.size(), 1);
}

#[test]
fn size_never_exceeds_capacity() {
    let mut s: LruStore<u32> = LruStore::new(3);
    for i in 0..10u32 {
        s.put(format!("k{}", i), i, 1);
        assert!(s.size() <= s.capacity());
        assert!(s.len() <= 3);
    }
    assert_eq!(s.len(), 3);
}

#[test]
fn byte_weights_respect_capacity() {
    let mut s: LruStore<u32> = LruStore::new(10);
    s.put("a".to_string(), 1, 4);
    s.put("b".to_string(), 2, 4);
    let ev = s.put("c".to_string(), 3, 4);
    assert_eq!(ev.len(), 1);
    assert_eq!(ev[0].0, "a");
    assert_eq!(s.size(), 8);
    assert!(!s.contains_key("a"));
}

#[test]
fn overflow_evicts_first_inserted() {
    let mut s: LruStore<u32> = LruStore::new(2);
    s.put("k1".to_string(), 1, 1);
    s.put("k2".to_string(), 2, 1);
    let ev = s.put("k3".to_string(), 3, 1);
    assert_eq!(ev.len(), 1);
    assert_eq!(ev[0].0, "k1");
    assert_eq!(ev[0].1, 1);
    assert!(!s.contains_key("k1"));
    assert!(s.contains_key("k2"));
    assert!(s.contains_key("k3"));
}

#[test]
fn read_entry_survives_overflow() {
    let mut s: LruStore<u32> = LruStore::new(2);
    s.put("k1".to_string(), 1, 1);
    s.put("k2".to_string(), 2, 1);
    assert_eq!(s.get("k1"), Some(&1));
    let ev = s.put("k3".to_string(), 3, 1);
    assert_eq!(ev[0].0, "k2");
    assert_eq!(s.get("k1"), Some(&1));
    assert_eq!(s.get("k2"), None);
}

#[test]
fn replacing_a_key_keeps_one_entry() {
    let mut s: LruStore<u32> = LruStore::new(2);
    s.put("k".to_string(), 1, 1);
    let ev = s.put("k".to_string(), 2, 1);
    assert!(ev.is_empty());
    assert_eq!(s.len(), 1);
    assert_eq!(s.get("k"), Some(&2));
}

#[test]
fn heavy_entry_is_not_kept() {
    let mut s: LruStore<u32> = LruStore::new(5);
    s.put("a".to_string(), 1, 2);
    let ev = s.put("big".to_string(), 9, 6);
    assert_eq!(ev.len(), 2);
    assert_eq!(ev[0].0, "a");
    assert_eq!(ev[1].0, "big");
    assert_eq!(s.len(), 0);
    assert_eq!(s.size(), 0);
}

#[test]
fn zero_capacity_holds_nothing() {
    let mut s: LruStore<u32> = LruStore::new(0);
    let ev = s.put("a".to_string(), 1, 1);
    assert_eq!(ev.len(), 1);
    assert_eq!(s.get("a"), None);
}

#[test]
fn evict_removes_only_that_key() {
    let mut s: LruStore<u32> = LruStore::new(3);
    s.put("a".to_string(), 1, 1);
    s.put("b".to_string(), 2, 1);
    s.put("c".to_string(), 3, 1);
    assert!(s.evict("b"));
    assert!(!s.evict("b"));
    assert_eq!(s.get("b"), None);
    assert_eq!(s.get("a"), Some(&1));
    assert_eq!(s.get("c"), Some(&3));
    assert_eq!(s.len(), 2);
    assert_eq!(s.size(), 2);
}
