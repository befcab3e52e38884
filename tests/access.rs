use std::cell::Cell;
use std::rc::Rc;
use std::sync::Arc;

use storage_cache::accessor::{CacheAccessor, SharedCache};
use storage_cache::reader::{
    settle_load, CacheKey, CacheReader, InMemoryBytesCacheReader, InMemoryItemCacheReader, LoadError,
    LoadParams, Loader, LoaderWithCacheKey,
};

#[test]
fn shared_cache_round_trip() {
    let c: SharedCache<String> = SharedCache::new(2);
    assert!(c.get("a").is_none());
    c.put("a".to_string(), Arc::new("x".to_string()));
    assert_eq!(c.get("a").as_deref(), Some(&"x".to_string()));
    assert!(c.evict("a"));
    assert!(!c.evict("a"));
    assert!(c.get("a").is_none());
}

#[test]
fn shared_cache_handles_see_one_store() {
    let c: SharedCache<u64> = SharedCache::new(2);
    let h = c.handle();
    h.put("a".to_string(), Arc::new(7));
    assert_eq!(c.get("a").map(|v| *v), Some(7));
    c.put("b".to_string(), Arc::new(8));
    c.put("c".to_string(), Arc::new(9));
    assert!(h.get("a").is_none());
}

#[test]
fn evicted_value_stays_valid_for_holders() {
    let c: SharedCache<u64> = SharedCache::new(1);
    c.put("a".to_string(), Arc::new(1));
    let held = c.get("a").unwrap();
    c.put("b".to_string(), Arc::new(2));
    assert!(c.get("a").is_none());
    assert_eq!(*held, 1);
}

#[test]
fn absent_cache_is_a_no_op() {
    let c: Option<SharedCache<u64>> = None;
    assert!(c.get("a").is_none());
    c.put("a".to_string(), Arc::new(1));
    assert!(c.get("a").is_none());
    assert!(!c.evict("a"));
}

#[test]
fn present_option_cache_delegates() {
    let c: Option<SharedCache<u64>> = Some(SharedCache::new(4));
    c.put("a".to_string(), Arc::new(1));
    assert_eq!(c.get("a").map(|v| *v), Some(1));
    assert!(c.evict("a"));
    assert!(c.get("a").is_none());
}

struct CountingLoader {
    calls: Rc<Cell<u32>>,
    fail: bool,
}

impl Loader<Vec<u8>> for CountingLoader {
    fn load(&self, params: &LoadParams) -> Result<Vec<u8>, LoadError> {
        self.calls.set(self.calls.get() + 1);
        if self.fail {
            Err(LoadError::NotFound(params.location.clone()))
        } else {
            Ok(params.location.as_bytes().to_vec())
        }
    }
}

impl LoaderWithCacheKey<Vec<u8>> for CountingLoader {
    fn cache_key(&self, params: &LoadParams) -> CacheKey {
        format!("{}-{}", params.location, params.ver)
    }
}

fn params(loc: &str) -> LoadParams {
    LoadParams { location: loc.to_string(), len_hint: None, ver: 1 }
}

#[test]
fn second_read_is_a_hit() {
    let cache: SharedCache<Vec<u8>> = SharedCache::new(4);
    let loader = CountingLoader { calls: Rc::new(Cell::new(0)), fail: false };
    let r: InMemoryBytesCacheReader<CountingLoader> =
        InMemoryItemCacheReader::new(Some(cache.handle()), loader);
    let first = r.read(&params("p")).ok().unwrap();
    let second = r.read(&params("p")).ok().unwrap();
    assert_eq!(*first, b"p".to_vec());
    assert_eq!(first, second);
    assert!(Arc::ptr_eq(&first, &second));
    assert!(cache.get("p-1").is_some());
}

#[test]
fn loader_runs_once_for_repeated_reads() {
    let calls = Rc::new(Cell::new(0));
    let loader = CountingLoader { calls: calls.clone(), fail: false };
    let r = InMemoryItemCacheReader::new(Some(SharedCache::new(4)), loader);
    r.read(&params("p")).ok().unwrap();
    assert_eq!(calls.get(), 1);
    r.read(&params("p")).ok().unwrap();
    assert_eq!(calls.get(), 1);
    r.read(&params("q")).ok().unwrap();
    assert_eq!(calls.get(), 2);
    r.read(&params("p")).ok().unwrap();
    assert_eq!(calls.get(), 2);
}

#[test]
fn absent_cache_loads_every_time() {
    let calls = Rc::new(Cell::new(0));
    let loader = CountingLoader { calls: calls.clone(), fail: false };
    let r = InMemoryItemCacheReader::new(None, loader);
    let a = r.read(&params("p")).ok().unwrap();
    let b = r.read(&params("p")).ok().unwrap();
    assert_eq!(a, b);
    assert_eq!(calls.get(), 2);
    assert!(!Arc::ptr_eq(&a, &b));
}

#[test]
fn load_error_passes_through_and_caches_nothing() {
    let cache: SharedCache<Vec<u8>> = SharedCache::new(4);
    let loader = CountingLoader { calls: Rc::new(Cell::new(0)), fail: true };
    let r = InMemoryItemCacheReader::new(Some(cache.handle()), loader);
    match r.read(&params("gone")) {
        Err(LoadError::NotFound(loc)) => assert_eq!(loc, "gone"),
        _ => panic!("expected a not-found error"),
    }
    assert!(cache.get("gone-1").is_none());
}

#[test]
fn two_readers_on_one_cache_agree() {
    let cache: SharedCache<Vec<u8>> = SharedCache::new(4);
    let r1 = InMemoryItemCacheReader::new(
        Some(cache.handle()),
        CountingLoader { calls: Rc::new(Cell::new(0)), fail: false },
    );
    let r2 = InMemoryItemCacheReader::new(
        Some(cache.handle()),
        CountingLoader { calls: Rc::new(Cell::new(0)), fail: false },
    );
    let a = r1.read(&params("p")).ok().unwrap();
    let b = r2.read(&params("p")).ok().unwrap();
    assert_eq!(a, b);
    assert_eq!(cache.get("p-1").map(|v| v.to_vec()), Some(b"p".to_vec()));
}

#[test]
fn reader_over_any_accessor() {
    let cache: SharedCache<Vec<u8>> = SharedCache::new(4);
    let calls = Rc::new(Cell::new(0));
    let r = CacheReader::new(cache.handle(), CountingLoader { calls: calls.clone(), fail: false });
    let a = r.read(&params("p")).ok().unwrap();
    let b = r.read(&params("p")).ok().unwrap();
    assert!(Arc::ptr_eq(&a, &b));
    assert_eq!(calls.get(), 1);
}

#[test]
fn settle_load_wraps_or_passes_on() {
    let ok = settle_load(Ok(5u32));
    assert_eq!(ok.ok().map(|a| *a), Some(5));
    match settle_load::<u32>(Err(LoadError::Io("disk".to_string()))) {
        Err(LoadError::Io(m)) => assert_eq!(m, "disk"),
        _ => panic!("expected the same error"),
    }
}
