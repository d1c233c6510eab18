use vstd::prelude::*;

use crate::cache::Cache;
use crate::context::Context;
use crate::event::{authored_by, Event};

verus! {

/// The unit that drops messages written by the system's own identity.
pub struct IgnoreSelf {}

/// Whether the self-filter lets `e` go on, given the identity `me` that the
/// cache reports (`None` when it knows of none).
pub open spec fn passes_self_filter(e: Event, me: Option<u64>) -> bool {
    match me {
        Some(id) => !authored_by(e, id),
        None => true,
    }
}

impl IgnoreSelf {
    pub fn new() -> (r: IgnoreSelf) {
        IgnoreSelf {}
    }

    /// The cache handle that an earlier cache unit published; `None` when no
    /// cache unit ran before, which aborts the run.
    pub fn cache<'a, C>(&self, ctx: &'a Context<C>) -> (r: Option<&'a Cache<C>>)
        ensures
            match r {
                Some(c) => ctx.scratch() == Some(c.handle()),
                None => ctx.scratch() is None,
            },
    {
        match &ctx.local().cache {
            Some(c) => Some(c),
            None => None,
        }
    }

    /// Whether the run goes on past this unit for `event`, given the
    /// identity `me` read from the cache.
    pub fn handle(&self, event: &Event, me: Option<u64>) -> (r: bool)
        ensures
            r == passes_self_filter(*event, me),
    {
        match (event, me) {
            (Event::MessageCreate(m), Some(id)) => m.author_id != id,
            _ => true,
        }
    }
}

} // verus!
