use storage_cache::disk::{file_name, DiskBudget, DiskCache};

#[test]
fn file_names_are_hex_of_the_key() {
    assert_eq!(file_name(&"/c".to_string(), "ab/"), "/c/61622f");
    assert_eq!(file_name(&"/c".to_string(), ""), "/c/");
    assert_eq!(file_name(&"r".to_string(), "\u{e9}"), "r/c3a9");
}

#[test]
fn third_file_evicts_the_first() {
    let mut d = DiskCache::new("/cache".to_string(), DiskBudget::Files(2));
    assert!(d.put("k1".to_string(), 10).is_empty());
    assert!(d.put("k2".to_string(), 20).is_empty());
    let gone = d.put("k3".to_string(), 30);
    assert_eq!(gone, vec![d.path_of("k1")]);
    assert_eq!(gone, vec!["/cache/6b31".to_string()]);
    assert_eq!(d.len(), 2);
    assert!(d.get("k1").is_none());
    assert_eq!(d.get("k2"), Some("/cache/6b32".to_string()));
    assert_eq!(d.get("k3"), Some("/cache/6b33".to_string()));
}

#[test]
fn byte_budget_counts_sizes() {
    let mut d = DiskCache::new("/d".to_string(), DiskBudget::Bytes(100));
    d.put("a".to_string(), 40);
    d.put("b".to_string(), 40);
    assert_eq!(d.size(), 80);
    let gone = d.put("c".to_string(), 50);
    assert_eq!(gone, vec![d.path_of("a")]);
    assert_eq!(d.size(), 90);
    let gone = d.put("huge".to_string(), 101);
    assert_eq!(gone.len(), 3);
    assert_eq!(gone[2], d.path_of("huge"));
    assert_eq!(d.len(), 0);
}

#[test]
fn disk_get_protects_from_eviction() {
    let mut d = DiskCache::new("/d".to_string(), DiskBudget::Files(2));
    d.put("a".to_string(), 1);
    d.put("b".to_string(), 1);
    assert!(d.get("a").is_some());
    let gone = d.put("c".to_string(), 1);
    assert_eq!(gone, vec![d.path_of("b")]);
    assert!(d.contains_key("a"));
}

#[test]
fn disk_evict_returns_the_file() {
    let mut d = DiskCache::new("/d".to_string(), DiskBudget::Files(4));
    d.put("a".to_string(), 1);
    assert_eq!(d.evict("a"), Some(d.path_of("a")));
    assert_eq!(d.evict("a"), None);
    assert_eq!(d.len(), 0);
}
