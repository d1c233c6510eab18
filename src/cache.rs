use std::sync::Arc;
use vstd::prelude::*;

use crate::channel::share;
use crate::context::Context;

verus! {

/// A shared handle to the entity cache that the units of a run read.
pub struct Cache<C> {
    inner: Arc<C>,
}

/// Why a cache unit aborted its run.
#[derive(Debug, PartialEq, Eq, Structural)]
pub enum CacheError {
    /// The cache could not take in the event.
    UpdateFailed,
}

impl<C> Cache<C> {
    pub closed spec fn handle(&self) -> Arc<C> {
        self.inner
    }

    pub fn new(inner: Arc<C>) -> (r: Cache<C>)
        ensures
            r.handle() == inner,
    {
        Cache { inner }
    }

    /// The cache behind the handle.
    pub fn get(&self) -> (r: &Arc<C>)
        ensures
            *r == self.handle(),
    {
        &self.inner
    }

    /// Another handle to the same cache.
    pub fn duplicate(&self) -> (r: Cache<C>)
        ensures
            r.handle() == self.handle(),
    {
        Cache { inner: share(&self.inner) }
    }
}

/// The unit that feeds each event into the cache, then publishes the cache
/// into the run's scratch store.
pub struct CacheMiddleware<C> {
    cache: Cache<C>,
}

impl<C> CacheMiddleware<C> {
    pub closed spec fn handle_spec(&self) -> Arc<C> {
        self.cache.handle()
    }

    pub fn new(cache: C) -> (r: CacheMiddleware<C>)
        ensures
            *r.handle_spec() == cache,
    {
        CacheMiddleware { cache: Cache::new(Arc::new(cache)) }
    }

    /// The cache that events are fed into.
    pub fn cache(&self) -> (r: &Cache<C>)
        ensures
            r.handle() == self.handle_spec(),
    {
        &self.cache
    }

    /// Decides the run once the cache has been updated with `ctx.event`:
    /// a failed update aborts the run and leaves the context as it was; a
    /// successful one publishes the cache and lets the run go on (`Ok`).
    pub fn handle<E>(&self, ctx: &mut Context<C>, update: Result<(), E>) -> (r: Result<(), CacheError>)
        ensures
            update is Ok <==> r is Ok,
            r is Ok ==> final(ctx).event == old(ctx).event && final(ctx).scratch() == Some(self.handle_spec()),
            r is Err ==> r == Err::<(), CacheError>(CacheError::UpdateFailed) && *final(ctx) == *old(ctx),
    {
        match update {
            Ok(()) => {
                ctx.insert_cache(self.cache.duplicate());
                Ok(())
            },
            Err(_) => Err(CacheError::UpdateFailed),
        }
    }
}

} // verus!
