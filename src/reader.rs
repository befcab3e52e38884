//! Read-through access: a lookup in the cache, and on a miss a load whose value is cached.
use std::sync::Arc;
use vstd::prelude::*;
use crate::accessor::{share, CacheAccessor, SharedCache};

verus! {

/// Names one loadable artifact.
pub type CacheKey = String;

/// What to load: where it lives, and optionally how long it is and which version.
pub struct LoadParams {
    pub location: String,
    pub len_hint: Option<u64>,
    pub ver: u64,
}

/// Why a load failed.
pub enum LoadError {
    Io(String),
    Decode(String),
    NotFound(String),
}

/// Produces the value of an artifact on a cache miss.
pub trait Loader<T> {
    /// Whether `r` is an answer this loader may give for `params`. An impl that
    /// does not say admits any answer.
    open spec fn loads(&self, params: LoadParams, r: Result<T, LoadError>) -> bool {
        true
    }

    fn load(&self, params: &LoadParams) -> (r: Result<T, LoadError>)
        ensures
            self.loads(*params, r),
    ;
}

/// A loader that also says under which key its values are cached.
pub trait LoaderWithCacheKey<T>: Loader<T> {
    fn cache_key(&self, params: &LoadParams) -> CacheKey;
}

/// How a read ends once the loader has answered: a loaded value is wrapped for
/// sharing, an error is passed on unchanged.
pub fn settle_load<T>(loaded: Result<T, LoadError>) -> (r: Result<Arc<T>, LoadError>)
    ensures
        match loaded {
            Ok(v) => r matches Ok(a) && *a == v,
            Err(e) => r == Err::<Arc<T>, LoadError>(e),
        },
{
    match loaded {
        Ok(v) => Ok(Arc::new(v)),
        Err(e) => Err(e),
    }
}

/// Loads values through a cache, which may be disabled.
#[verifier::reject_recursive_types(T)]
pub struct CacheReader<T, A, L> {
    cache: A,
    loader: L,
    item: core::marker::PhantomData<T>,
}

/// Loads items through an in-memory cache, which may be absent.
pub type InMemoryItemCacheReader<T, L> = CacheReader<T, Option<SharedCache<T>>, L>;

/// Loads raw bytes through an in-memory cache.
pub type InMemoryBytesCacheReader<L> = InMemoryItemCacheReader<Vec<u8>, L>;

impl<T, A: CacheAccessor<T>, L: LoaderWithCacheKey<T>> CacheReader<T, A, L> {
    pub fn new(cache: A, loader: L) -> (r: Self)
        ensures
            r.cache() == cache,
            r.loader() == loader,
    {
        CacheReader { cache, loader, item: core::marker::PhantomData }
    }

    pub closed spec fn cache(&self) -> A {
        self.cache
    }

    pub closed spec fn loader(&self) -> L {
        self.loader
    }

    /// The cached value of the key of `params` on a hit; else the loader's answer,
    /// whose value is then cached under that key. Errors come from the loader alone
    /// and are passed on unchanged; with the cache disabled every value does too.
    pub fn read(&self, params: &LoadParams) -> (r: Result<Arc<T>, LoadError>)
        ensures
            r matches Err(e) ==> self.loader().loads(*params, Err(e)),
            self.cache().disabled() ==> (r matches Ok(a) ==> self.loader().loads(*params, Ok(*a))),
    {
        let key = self.loader.cache_key(params);
        match self.cache.get(key.as_str()) {
            Some(v) => Ok(v),
            None => {
                let r = settle_load(self.loader.load(params));
                match &r {
                    Ok(v) => self.cache.put(key, share(v)),
                    Err(_) => {},
                }
                r
            },
        }
    }
}

} // verus!
