use std::sync::Arc;
use vstd::prelude::*;

use crate::cache::Cache;
use crate::event::Event;

verus! {

/// The scratch store of one chain run: a fixed set of typed slots that the
/// units of the run share.
pub struct Local<C> {
    /// The cache handle, once a cache unit has published it.
    pub cache: Option<Cache<C>>,
}

/// An event together with the scratch store of its chain run.
pub struct Context<C> {
    /// Wrapped event.
    pub event: Event,
    pub local: Local<C>,
}

impl<C> Context<C> {
    pub closed spec fn scratch(&self) -> Option<Arc<C>> {
        match self.local.cache {
            Some(c) => Some(c.handle()),
            None => None,
        }
    }

    /// Wraps `event` with an empty scratch store of its own.
    pub fn new(event: Event) -> (r: Context<C>)
        ensures
            r.event == event,
            r.scratch() is None,
    {
        Context { event, local: Local { cache: None } }
    }

    /// The scratch store.
    pub fn local(&self) -> (r: &Local<C>)
        ensures
            match r.cache {
                Some(c) => self.scratch() == Some(c.handle()),
                None => self.scratch() is None,
            },
    {
        &self.local
    }

    /// Publishes a cache handle into the scratch store.
    pub fn insert_cache(&mut self, cache: Cache<C>)
        ensures
            final(self).event == old(self).event,
            final(self).scratch() == Some(cache.handle()),
    {
        self.local.cache = Some(cache);
    }
}

} // verus!
