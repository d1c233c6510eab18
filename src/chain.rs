use std::sync::Arc;
use vstd::prelude::*;

use crate::context::Context;
use crate::event::Event;
use crate::ignore_self::passes_self_filter;

verus! {

/// One step of a continuation at `cursor` over a chain of `len` units: the
/// unit to invoke and the cursor of what remains, or `None` at the end.
pub open spec fn step(cursor: nat, len: nat) -> Option<(nat, nat)> {
    if cursor < len {
        Some((cursor, cursor + 1))
    } else {
        None
    }
}

/// The units that a run invokes from `cursor` on, in order, when the units
/// it invokes answer in turn `goes_on` (true: the unit continued the chain).
pub open spec fn chain_trace(cursor: nat, len: nat, goes_on: Seq<bool>) -> Seq<nat>
    decreases len - cursor,
{
    match step(cursor, len) {
        None => seq![],
        Some((unit, rest)) => if goes_on.len() > 0 && goes_on[0] {
            seq![unit].add(chain_trace(rest, len, goes_on.drop_first()))
        } else {
            seq![unit]
        },
    }
}

/// The continuation of a chain run: the units still to come. It is consumed
/// by `run`, so it cannot continue the chain twice.
pub struct Next {
    cursor: usize,
    len: usize,
}

impl Next {
    pub closed spec fn position(&self) -> nat {
        self.cursor as nat
    }

    pub closed spec fn length(&self) -> nat {
        self.len as nat
    }

    pub closed spec fn wf(&self) -> bool {
        self.cursor <= self.len
    }

    /// Advances the chain: the index of the unit to invoke now, and the
    /// continuation to hand it; `None` when no unit is left.
    pub fn run(self) -> (r: Option<(usize, Next)>)
        requires
            self.wf(),
        ensures
            match r {
                Some((unit, rest)) => step(self.position(), self.length()) == Some(
                    (unit as nat, rest.position()),
                ) && rest.length() == self.length() && rest.wf(),
                None => step(self.position(), self.length()) is None,
            },
    {
        if self.cursor < self.len {
            Some((self.cursor, Next { cursor: self.cursor + 1, len: self.len }))
        } else {
            None
        }
    }
}

/// The process-wide state and the ordered list of middleware units.
pub struct MiddlewareStack<S, M> {
    state: Arc<S>,
    middlewares: Vec<M>,
}

impl<S, M> MiddlewareStack<S, M> {
    pub closed spec fn state_spec(&self) -> Arc<S> {
        self.state
    }

    pub closed spec fn units(&self) -> Seq<M> {
        self.middlewares@
    }

    /// An empty stack that owns `state`.
    pub fn new(state: S) -> (r: MiddlewareStack<S, M>)
        ensures
            *r.state_spec() == state,
            r.units() == Seq::<M>::empty(),
    {
        MiddlewareStack { state: Arc::new(state), middlewares: Vec::new() }
    }

    /// Appends a unit at the end of the list.
    pub fn push(self, middleware: M) -> (r: MiddlewareStack<S, M>)
        ensures
            r.state_spec() == self.state_spec(),
            r.units() == self.units().push(middleware),
    {
        let mut stack = self;
        stack.middlewares.push(middleware);
        stack
    }

    /// The shared state handed to every unit.
    pub fn state(&self) -> (r: &Arc<S>)
        ensures
            *r == self.state_spec(),
    {
        &self.state
    }

    /// The number of units.
    pub fn len(&self) -> (r: usize)
        ensures
            r == self.units().len(),
    {
        self.middlewares.len()
    }

    /// The unit at `index`.
    pub fn middleware(&self, index: usize) -> (r: &M)
        requires
            index < self.units().len(),
        ensures
            *r == self.units()[index as int],
    {
        &self.middlewares[index]
    }

    /// Starts the chain run of `event`: a context of its own, with an empty
    /// scratch store, and a continuation at the head of the list.
    pub fn handle<C>(&self, event: Event) -> (r: (Context<C>, Next))
        ensures
            r.0.event == event,
            r.0.scratch() is None,
            r.1.wf(),
            r.1.position() == 0,
            r.1.length() == self.units().len(),
    {
        (Context::new(event), Next { cursor: 0, len: self.middlewares.len() })
    }
}

/// A run invokes units strictly in list order, starting at the head: the
/// `j`-th unit invoked is unit `j`, and no unit is invoked twice.
pub proof fn lemma_chain_in_order(len: nat, goes_on: Seq<bool>)
    ensures
        forall|j: int|
            0 <= j < chain_trace(0, len, goes_on).len() ==> chain_trace(0, len, goes_on)[j] == j,
        chain_trace(0, len, goes_on).len() <= len,
{
    lemma_trace_from(0, len, goes_on);
}

proof fn lemma_trace_from(cursor: nat, len: nat, goes_on: Seq<bool>)
    ensures
        forall|j: int|
            0 <= j < chain_trace(cursor, len, goes_on).len() ==> chain_trace(cursor, len, goes_on)[j]
                == cursor + j,
        cursor <= len ==> chain_trace(cursor, len, goes_on).len() <= len - cursor,
        cursor >= len ==> chain_trace(cursor, len, goes_on).len() == 0,
    decreases len - cursor,
{
    if cursor < len && goes_on.len() > 0 && goes_on[0] {
        lemma_trace_from(cursor + 1, len, goes_on.drop_first());
    }
}

/// When the `k`-th unit invoked does not continue, the run ends there: units
/// `0..=k` are invoked and none after them.
pub proof fn lemma_chain_stops(len: nat, goes_on: Seq<bool>, k: nat)
    requires
        k < len,
        k < goes_on.len(),
        !goes_on[k as int],
        forall|j: int| 0 <= j < k ==> goes_on[j],
    ensures
        chain_trace(0, len, goes_on) == Seq::new(k + 1, |j: int| j as nat),
{
    lemma_stops_from(0, len, goes_on, k);
}

proof fn lemma_stops_from(cursor: nat, len: nat, goes_on: Seq<bool>, k: nat)
    requires
        cursor + k < len,
        k < goes_on.len(),
        !goes_on[k as int],
        forall|j: int| 0 <= j < k ==> goes_on[j],
    ensures
        chain_trace(cursor, len, goes_on) == Seq::new(k + 1, |j: int| (cursor + j) as nat),
    decreases k,
{
    if k > 0 {
        let rest = goes_on.drop_first();
        assert forall|j: int| 0 <= j < k - 1 implies rest[j] by {
            assert(goes_on[j + 1]);
        }
        lemma_stops_from(cursor + 1, len, rest, (k - 1) as nat);
        assert(chain_trace(cursor, len, goes_on) =~= Seq::new(k + 1, |j: int| (cursor + j) as nat));
    } else {
        assert(chain_trace(cursor, len, goes_on) =~= Seq::new(1, |j: int| (cursor + j) as nat));
    }
}

/// When every unit continues, the run invokes the whole list in order.
pub proof fn lemma_chain_complete(len: nat, goes_on: Seq<bool>)
    requires
        len <= goes_on.len(),
        forall|j: int| 0 <= j < len ==> goes_on[j],
    ensures
        chain_trace(0, len, goes_on) == Seq::new(len, |j: int| j as nat),
{
    lemma_complete_from(0, len, goes_on);
}

proof fn lemma_complete_from(cursor: nat, len: nat, goes_on: Seq<bool>)
    requires
        cursor <= len,
        len - cursor <= goes_on.len(),
        forall|j: int| 0 <= j < len - cursor ==> goes_on[j],
    ensures
        chain_trace(cursor, len, goes_on) == Seq::new((len - cursor) as nat, |j: int| (cursor + j) as nat),
    decreases len - cursor,
{
    if cursor < len {
        let rest = goes_on.drop_first();
        assert forall|j: int| 0 <= j < len - (cursor + 1) implies rest[j] by {
            assert(goes_on[j + 1]);
        }
        lemma_complete_from(cursor + 1, len, rest);
        assert(chain_trace(cursor, len, goes_on) =~= Seq::new(
            (len - cursor) as nat,
            |j: int| (cursor + j) as nat,
        ));
    } else {
        assert(chain_trace(cursor, len, goes_on) =~= Seq::new(0, |j: int| (cursor + j) as nat));
    }
}

/// With the self-filter at position `k` and every unit before it continuing,
/// a message written by the identity `me` never reaches a unit after `k`,
/// while any other event reaches unit `k + 1` when the list has one.
pub proof fn lemma_self_filter_in_chain(
    len: nat,
    goes_on: Seq<bool>,
    k: nat,
    event: Event,
    me: Option<u64>,
)
    requires
        k < len,
        k < goes_on.len(),
        goes_on[k as int] == passes_self_filter(event, me),
        forall|j: int| 0 <= j < k ==> goes_on[j],
    ensures
        !passes_self_filter(event, me) ==> forall|j: int|
            0 <= j < chain_trace(0, len, goes_on).len() ==> chain_trace(0, len, goes_on)[j] <= k,
        passes_self_filter(event, me) && k + 1 < len ==> chain_trace(0, len, goes_on).contains(
            (k + 1) as nat,
        ),
{
    if !passes_self_filter(event, me) {
        lemma_chain_stops(len, goes_on, k);
    } else if k + 1 < len {
        lemma_reaches(0, len, goes_on, k);
        assert(chain_trace(0, len, goes_on)[(k + 1) as int] == k + 1);
    }
}

proof fn lemma_reaches(cursor: nat, len: nat, goes_on: Seq<bool>, k: nat)
    requires
        cursor + k + 1 < len,
        k < goes_on.len(),
        forall|j: int| 0 <= j <= k ==> goes_on[j],
    ensures
        chain_trace(cursor, len, goes_on).len() > k + 1,
        chain_trace(cursor, len, goes_on)[(k + 1) as int] == cursor + k + 1,
    decreases k,
{
    let rest = goes_on.drop_first();
    if k > 0 {
        assert forall|j: int| 0 <= j <= k - 1 implies rest[j] by {
            assert(goes_on[j + 1]);
        }
        lemma_reaches(cursor + 1, len, rest, (k - 1) as nat);
    }
    lemma_trace_from(cursor + 1, len, rest);
}

} // verus!
