//! Thread-safe access to a shared store, and the accessor of a disabled cache.
use std::sync::Arc;
use vstd::prelude::*;
use crate::lru::{after_put, has_key, lookup, remove_key, touch, LruStore};

verus! {

#[verifier::external_type_specification]
#[verifier::external_body]
#[verifier::reject_recursive_types(R)]
#[verifier::reject_recursive_types(T)]
pub struct ExRwLock<R, T: ?Sized>(parking_lot::lock_api::RwLock<R, T>);

#[verifier::external_type_specification]
#[verifier::external_body]
pub struct ExRawRwLock(parking_lot::RawRwLock);

/// Relies on parking_lot::RwLock::new: a lock that owns `value`.
#[verifier::external_body]
fn new_lock<T>(value: T) -> (r: parking_lot::RwLock<T>) {
    parking_lot::RwLock::new(value)
}

/// Relies on parking_lot::RwLock::write: `f` runs on the guarded value while the lock is
/// held exclusively, and its result is handed back. What the value was is not known here.
#[verifier::external_body]
fn with_write<T, O, F: FnOnce(&mut T) -> O>(lock: &parking_lot::RwLock<T>, f: F) -> (r: O)
    requires
        forall|t: &mut T| f.requires((t,)),
    ensures
        exists|t: &mut T| f.ensures((t,), r),
{
    let mut guard = lock.write();
    f(&mut *guard)
}

/// Relies on Arc::clone: another handle to the same value.
#[verifier::external_body]
pub(crate) fn share<V>(a: &Arc<V>) -> (r: Arc<V>)
    ensures
        r == *a,
{
    Arc::clone(a)
}

/// Reads `k` under the lock, handing out a new handle to its value.
fn get_shared<V>(s: &mut LruStore<Arc<V>>, k: &str) -> (r: Option<Arc<V>>)
    ensures
        final(s)@ == touch(old(s)@, k@),
        r == lookup(old(s)@, k@),
{
    match s.get(k) {
        Some(v) => Some(share(v)),
        None => None,
    }
}

/// Uniform access to a cache: a lookup, an insertion and a removal, none of which fails.
/// A disabled cache never hits and never evicts.
pub trait CacheAccessor<V> {
    /// Whether this accessor stands for a cache that is switched off; an impl that
    /// does not say is not.
    open spec fn disabled(&self) -> bool {
        false
    }

    fn get(&self, k: &str) -> (r: Option<Arc<V>>)
        ensures
            self.disabled() ==> r is None,
    ;

    fn put(&self, key: String, value: Arc<V>);

    fn evict(&self, k: &str) -> (r: bool)
        ensures
            self.disabled() ==> !r,
    ;
}

/// A store shared between threads; every operation holds its lock exclusively,
/// since a read updates recency too.
#[verifier::reject_recursive_types(V)]
pub struct SharedCache<V> {
    inner: Arc<parking_lot::RwLock<LruStore<Arc<V>>>>,
}

impl<V> SharedCache<V> {
    /// A cache of at most `capacity` items.
    pub fn new(capacity: u64) -> (r: Self) {
        SharedCache { inner: Arc::new(new_lock(LruStore::new(capacity))) }
    }

    /// Another handle to the same cache.
    pub fn handle(&self) -> (r: Self) {
        SharedCache { inner: share(&self.inner) }
    }

    /// Looks `k` up under the lock; a hit becomes the most recently used entry.
    /// Other handles may change the store at any time, so the contract says only that
    /// the result is what some store would give: it does not pin the result down.
    pub fn lookup(&self, k: &str) -> (r: Option<Arc<V>>)
        ensures
            exists|s: LruStore<Arc<V>>| r == lookup(s@, k@),
    {
        with_write(
            &*self.inner,
            (|s: &mut LruStore<Arc<V>>| -> (r: Option<Arc<V>>)
                ensures
                    r == lookup(old(s)@, k@),
                { get_shared(s, k) }),
        )
    }

    /// Puts `value` under `key` as the most recently used item, evicting the least
    /// recently used ones beyond the capacity.
    pub fn insert(&self, key: String, value: Arc<V>) {
        with_write(
            &*self.inner,
            (|s: &mut LruStore<Arc<V>>| -> (r: ())
                ensures
                    final(s)@ == after_put(old(s)@, (key, value, 1u64), old(s).spec_capacity() as int),
                { put_item(s, key, value) }),
        )
    }

    /// Removes `k` under the lock and says whether it was there. Other handles may
    /// change the store at any time, so the contract says only that the result is
    /// what some store would give: it does not pin the result down.
    pub fn remove(&self, k: &str) -> (r: bool)
        ensures
            exists|s: LruStore<Arc<V>>| r == has_key(s@, k@),
    {
        with_write(
            &*self.inner,
            (|s: &mut LruStore<Arc<V>>| -> (r: bool)
                ensures
                    final(s)@ == remove_key(old(s)@, k@),
                    r == has_key(old(s)@, k@),
                { s.evict(k) }),
        )
    }
}

/// Puts an item of unit weight; what it evicts is dropped.
fn put_item<V>(s: &mut LruStore<Arc<V>>, key: String, value: Arc<V>)
    ensures
        final(s)@ == after_put(old(s)@, (key, value, 1u64), old(s).spec_capacity() as int),
        final(s).spec_capacity() == old(s).spec_capacity(),
{
    let _evicted = s.put(key, value, 1);
}

impl<V> CacheAccessor<V> for SharedCache<V> {
    open spec fn disabled(&self) -> bool {
        false
    }

    fn get(&self, k: &str) -> (r: Option<Arc<V>>)
        ensures
            exists|s: LruStore<Arc<V>>| r == lookup(s@, k@),
    {
        self.lookup(k)
    }

    fn put(&self, key: String, value: Arc<V>) {
        self.insert(key, value)
    }

    fn evict(&self, k: &str) -> (r: bool)
        ensures
            exists|s: LruStore<Arc<V>>| r == has_key(s@, k@),
    {
        self.remove(k)
    }
}

/// A disabled cache is `None`: it never hits, ignores insertions and evicts nothing.
impl<V> CacheAccessor<V> for Option<SharedCache<V>> {
    open spec fn disabled(&self) -> bool {
        self is None
    }

    fn get(&self, k: &str) -> (r: Option<Arc<V>>)
        ensures
            self is None ==> r is None,
            self is Some ==> exists|s: LruStore<Arc<V>>| r == lookup(s@, k@),
    {
        match self {
            Some(c) => c.lookup(k),
            None => None,
        }
    }

    fn put(&self, key: String, value: Arc<V>) {
        match self {
            Some(c) => c.insert(key, value),
            None => {},
        }
    }

    fn evict(&self, k: &str) -> (r: bool)
        ensures
            self is None ==> !r,
            self is Some ==> exists|s: LruStore<Arc<V>>| r == has_key(s@, k@),
    {
        match self {
            Some(c) => c.remove(k),
            None => false,
        }
    }
}

} // verus!
