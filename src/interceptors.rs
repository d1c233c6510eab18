use futures::channel::mpsc::{Receiver, Sender};
use std::sync::Arc;
use vstd::prelude::*;

use crate::channel::{bounded, is_closed, share, try_send};
use crate::event::Event;

verus! {

/// How many events a requester's channel holds before deliveries are dropped.
pub const DELIVERY_BUFFER: usize = 100;

/// What became of one interceptor when an event was offered to it.
#[derive(Debug, PartialEq, Eq, Structural)]
pub enum Delivery {
    /// The event was queued on the requester's channel.
    Delivered,
    /// The requester's channel was full: the event was dropped for it.
    Full,
    /// The requester is gone: the interceptor is removed.
    Closed,
    /// The interceptor has delivered its maximum and takes no more.
    Exhausted,
    /// The event does not match the interceptor's filter.
    Skipped,
}

/// The kind of event that a filter selects.
#[derive(Debug, PartialEq, Eq, Structural)]
pub enum FilterEvent {
    Reaction,
}

/// Which events an interceptor wants, and how many of them.
pub struct Filter {
    pub guild_id: Option<u64>,
    pub channel_id: Option<u64>,
    pub message_id: Option<u64>,
    pub event_type: FilterEvent,
    pub max: usize,
}

/// An absent scope matches anything; a present one only an equal value.
pub open spec fn scope_matches(want: Option<u64>, have: Option<u64>) -> bool {
    match want {
        Some(w) => have == Some(w),
        None => true,
    }
}

pub open spec fn filter_matches(f: Filter, e: Event) -> bool {
    match f.event_type {
        FilterEvent::Reaction => match e {
            Event::ReactionAdd(r) => scope_matches(f.guild_id, r.guild_id) && scope_matches(
                f.channel_id,
                Some(r.channel_id),
            ) && scope_matches(f.message_id, Some(r.message_id)),
            _ => false,
        },
    }
}

fn scope_check(want: Option<u64>, have: Option<u64>) -> (r: bool)
    ensures
        r == scope_matches(want, have),
{
    match want {
        Some(w) => match have {
            Some(h) => w == h,
            None => false,
        },
        None => true,
    }
}

impl Filter {
    /// A filter on `event_type` with no scope and a maximum of one event.
    pub fn new(event_type: FilterEvent) -> (r: Filter)
        ensures
            r.guild_id is None,
            r.channel_id is None,
            r.message_id is None,
            r.event_type == event_type,
            r.max == 1,
    {
        Filter { guild_id: None, channel_id: None, message_id: None, max: 1, event_type }
    }

    pub fn matches(&self, event: &Event) -> (r: bool)
        ensures
            r == filter_matches(*self, *event),
    {
        match self.event_type {
            FilterEvent::Reaction => match event {
                Event::ReactionAdd(re) => scope_check(self.guild_id, re.guild_id) && scope_check(
                    self.channel_id,
                    Some(re.channel_id),
                ) && scope_check(self.message_id, Some(re.message_id)),
                _ => false,
            },
        }
    }
}

/// What one send may come to, for an interceptor that has delivered `count`
/// events out of `max`.
pub open spec fn send_allowed(count: nat, max: nat, d: Delivery) -> bool {
    if count >= max {
        d is Exhausted
    } else {
        d is Delivered || d is Full || d is Closed
    }
}

/// The delivered count after a send that came to `d`.
pub open spec fn after_send(count: nat, d: Delivery) -> nat {
    if d is Delivered {
        count + 1
    } else {
        count
    }
}

/// A temporary subscription: matching events go to the requester's channel,
/// up to the filter's maximum.
pub struct Interceptor {
    tx: Sender<Arc<Event>>,
    filter: Filter,
    current: usize,
}

impl Interceptor {
    pub closed spec fn filter_spec(&self) -> Filter {
        self.filter
    }

    /// The number of events delivered so far.
    pub closed spec fn count(&self) -> nat {
        self.current as nat
    }

    pub open spec fn entry(&self) -> (Filter, nat) {
        (self.filter_spec(), self.count())
    }

    pub fn new(tx: Sender<Arc<Event>>, filter: Filter) -> (r: Interceptor)
        ensures
            r.filter_spec() == filter,
            r.count() == 0,
    {
        Interceptor { tx, filter, current: 0 }
    }

    pub fn matches(&self, event: &Event) -> (r: bool)
        ensures
            r == filter_matches(self.filter_spec(), *event),
    {
        self.filter.matches(event)
    }

    /// Whether the requester has dropped its receiving end.
    pub fn is_closed(&self) -> bool {
        is_closed(&self.tx)
    }

    /// Offers `event` to the requester without blocking: refused once the
    /// maximum is reached, else queued unless the channel is full or closed.
    pub fn send(&mut self, event: Arc<Event>) -> (r: Delivery)
        ensures
            send_allowed(old(self).count(), old(self).filter_spec().max as nat, r),
            final(self).count() == after_send(old(self).count(), r),
            final(self).filter_spec() == old(self).filter_spec(),
    {
        if self.current >= self.filter.max {
            return Delivery::Exhausted;
        }
        let d = try_send(&mut self.tx, event);
        if d == Delivery::Delivered {
            self.current = self.current + 1;
        }
        d
    }
}

/// What offering an event may come to, for an interceptor that stood at
/// `entry` and whose requester was (`closed`) or was not found gone.
pub open spec fn offer_allowed(entry: (Filter, nat), e: Event, closed: bool, d: Delivery) -> bool {
    if closed {
        d is Closed
    } else if !filter_matches(entry.0, e) {
        d is Skipped
    } else {
        send_allowed(entry.1, entry.0.max as nat, d)
    }
}

impl Interceptor {
    /// One step of a dispatch: a requester found gone (`closed`) gives
    /// `Closed`; an event outside the filter gives `Skipped`; any other event
    /// is sent. Only a delivery raises the count.
    pub fn offer(&mut self, event: Arc<Event>, closed: bool) -> (r: Delivery)
        ensures
            offer_allowed(old(self).entry(), *event, closed, r),
            final(self).entry() == (old(self).filter_spec(), after_send(old(self).count(), r)),
    {
        if closed {
            Delivery::Closed
        } else if !self.matches(&event) {
            Delivery::Skipped
        } else {
            self.send(event)
        }
    }
}

/// The filter of a reaction request: any reaction, at most one.
pub open spec fn reaction_filter() -> Filter {
    Filter {
        guild_id: None,
        channel_id: None,
        message_id: None,
        event_type: FilterEvent::Reaction,
        max: 1,
    }
}

/// A request to the component that owns the live interceptors.
pub enum InterceptorAction {
    AddInterceptor(Interceptor),
}

/// What one dispatch may do with an interceptor that stood at `entry`.
/// The requester's state is the channel's to report, so either answer of
/// `Interceptor::is_closed` may have come.
pub open spec fn outcome_allowed(entry: (Filter, nat), e: Event, d: Delivery) -> bool {
    offer_allowed(entry, e, true, d) || offer_allowed(entry, e, false, d)
}

/// The interceptors left after a dispatch whose outcomes were `ds`, one per
/// entry of `es` in order: the closed ones leave, the others stay in order
/// with their delivered counts brought up to date.
pub open spec fn survivors(es: Seq<(Filter, nat)>, ds: Seq<Delivery>) -> Seq<(Filter, nat)>
    decreases ds.len(),
{
    if ds.len() == 0 {
        seq![]
    } else {
        let k = ds.len() - 1;
        let before = survivors(es, ds.drop_last());
        if ds[k] is Closed {
            before
        } else {
            before.push((es[k].0, after_send(es[k].1, ds[k])))
        }
    }
}

/// The live interceptors.
pub struct Interceptors {
    list: Vec<Interceptor>,
}

impl Interceptors {
    pub closed spec fn entries(&self) -> Seq<(Filter, nat)> {
        self.list@.map_values(|it: Interceptor| it.entry())
    }

    pub fn new() -> (r: Interceptors)
        ensures
            r.entries() == Seq::<(Filter, nat)>::empty(),
    {
        let r = Interceptors { list: Vec::new() };
        assert(r.entries() =~= Seq::<(Filter, nat)>::empty());
        r
    }

    pub fn len(&self) -> (r: usize)
        ensures
            r == self.entries().len(),
    {
        self.list.len()
    }

    /// Carries out a request: a new interceptor joins the end of the list.
    pub fn apply(&mut self, action: Box<InterceptorAction>)
        ensures
            match *action {
                InterceptorAction::AddInterceptor(it) => final(self).entries() == old(self).entries().push(
                    it.entry(),
                ),
            },
    {
        match *action {
            InterceptorAction::AddInterceptor(it) => {
                self.list.push(it);
                assert(self.entries() =~= old(self).entries().push(it.entry()));
            },
        }
    }

    /// Offers `event` to every live interceptor, in order: those whose
    /// requester is gone are removed, the others get the event when their
    /// filter matches it. Returns the outcome for each former interceptor.
    pub fn dispatch(&mut self, event: Arc<Event>) -> (r: Vec<Delivery>)
        ensures
            r@.len() == old(self).entries().len(),
            forall|i: int|
                0 <= i < r@.len() ==> outcome_allowed(old(self).entries()[i], *event, #[trigger] r@[i]),
            final(self).entries() == survivors(old(self).entries(), r@),
    {
        let mut pending: Vec<Interceptor> = Vec::new();
        std::mem::swap(&mut self.list, &mut pending);
        let ghost olds = pending@.map_values(|it: Interceptor| it.entry());
        assert(olds == old(self).entries());
        let mut kept: Vec<Interceptor> = Vec::new();
        let mut outcomes: Vec<Delivery> = Vec::new();
        assert(kept@.map_values(|it: Interceptor| it.entry()) =~= survivors(olds, outcomes@));
        while pending.len() > 0
            invariant
                outcomes@.len() + pending@.len() == olds.len(),
                pending@.map_values(|it: Interceptor| it.entry()) =~= olds.subrange(
                    outcomes@.len() as int,
                    olds.len() as int,
                ),
                kept@.map_values(|it: Interceptor| it.entry()) == survivors(olds, outcomes@),
                forall|i: int|
                    0 <= i < outcomes@.len() ==> outcome_allowed(olds[i], *event, #[trigger] outcomes@[i]),
            decreases pending@.len(),
        {
            let ghost k = outcomes@.len() as int;
            let ghost before = pending@;
            let mut it = pending.remove(0);
            assert(it.entry() == before.map_values(|it: Interceptor| it.entry())[0]);
            assert(it.entry() == olds[k]);
            let closed = it.is_closed();
            let d = it.offer(share(&event), closed);
            let ghost old_outcomes = outcomes@;
            if d != Delivery::Closed {
                kept.push(it);
            }
            outcomes.push(d);
            assert(outcomes@.drop_last() =~= old_outcomes);
            assert(kept@.map_values(|it: Interceptor| it.entry()) =~= survivors(olds, outcomes@));
            assert forall|j: int| 0 <= j < pending@.len() implies #[trigger] pending@[j].entry() == olds[k + 1 + j] by {
                assert(pending@[j] == before[j + 1]);
                assert(before.map_values(|it: Interceptor| it.entry())[j + 1] == olds.subrange(k, olds.len() as int)[j + 1]);
            }
            assert(pending@.map_values(|it: Interceptor| it.entry()) =~= olds.subrange(
                outcomes@.len() as int,
                olds.len() as int,
            ));
        }
        self.list = kept;
        outcomes
    }
}

/// The interceptor that a request adds.
pub open spec fn action_entry(a: InterceptorAction) -> (Filter, nat) {
    match a {
        InterceptorAction::AddInterceptor(it) => it.entry(),
    }
}

/// The registration request for the next reaction anywhere: an interceptor
/// with no scope, a maximum of one and nothing delivered yet.
pub fn reaction_request(tx: Sender<Arc<Event>>) -> (r: Box<InterceptorAction>)
    ensures
        action_entry(*r) == (reaction_filter(), 0nat),
{
    let interceptor = Interceptor::new(tx, Filter::new(FilterEvent::Reaction));
    Box::new(InterceptorAction::AddInterceptor(interceptor))
}

/// A requester waiting for one reaction: the receiving end of its channel,
/// and what the control channel made of its registration.
pub struct ReactionFilter {
    pub rx: Receiver<Arc<Event>>,
    /// `Delivered` when the registry's control channel took the request.
    pub registration: Delivery,
    /// The interceptor whose registration was sent.
    pub request: Ghost<(Filter, nat)>,
}

impl ReactionFilter {
    /// Opens a channel, and asks the registry behind `gateway` to add an
    /// interceptor for the next reaction; a request the control channel
    /// refuses is dropped, as `registration` then tells.
    pub fn new(gateway: &mut Sender<Box<InterceptorAction>>) -> (r: ReactionFilter)
        ensures
            r.request@ == (reaction_filter(), 0nat),
            r.registration is Delivered || r.registration is Full || r.registration is Closed,
    {
        let (tx, rx) = bounded(DELIVERY_BUFFER);
        let request = reaction_request(tx);
        let ghost sent = action_entry(*request);
        let registration = try_send(gateway, request);
        ReactionFilter { rx, registration, request: Ghost(sent) }
    }
}

/// However the channel answers, an interceptor that starts at `count` of
/// `max` delivers at most `max - count` events over any run of sends.
pub proof fn lemma_bounded_deliveries(count: nat, max: nat, ds: Seq<Delivery>)
    requires
        count <= max,
        valid_sends(count, max, ds),
    ensures
        count + delivered(ds) <= max,
    decreases ds.len(),
{
    if ds.len() > 0 {
        lemma_bounded_deliveries(after_send(count, ds[0]), max, ds.drop_first());
    }
}

/// Once an interceptor has delivered its maximum, every later send is
/// refused, however many matching events come.
pub proof fn lemma_exhausted_stays(count: nat, max: nat, ds: Seq<Delivery>)
    requires
        count >= max,
        valid_sends(count, max, ds),
    ensures
        forall|j: int| 0 <= j < ds.len() ==> #[trigger] ds[j] is Exhausted,
    decreases ds.len(),
{
    if ds.len() > 0 {
        lemma_exhausted_stays(count, max, ds.drop_first());
        assert forall|j: int| 0 <= j < ds.len() implies #[trigger] ds[j] is Exhausted by {
            if j > 0 {
                assert(ds[j] == ds.drop_first()[j - 1]);
            }
        }
    }
}

/// A run of sends that each contract of `Interceptor::send` allows, starting
/// at `count` delivered events.
pub open spec fn valid_sends(count: nat, max: nat, ds: Seq<Delivery>) -> bool
    decreases ds.len(),
{
    ds.len() == 0 || (send_allowed(count, max, ds[0]) && valid_sends(
        after_send(count, ds[0]),
        max,
        ds.drop_first(),
    ))
}

/// The number of deliveries in `ds`.
pub open spec fn delivered(ds: Seq<Delivery>) -> nat
    decreases ds.len(),
{
    if ds.len() == 0 {
        0
    } else {
        (if ds[0] is Delivered {
            1nat
        } else {
            0nat
        }) + delivered(ds.drop_first())
    }
}

/// The number of closed outcomes in `ds`.
pub open spec fn closed_count(ds: Seq<Delivery>) -> nat
    decreases ds.len(),
{
    if ds.len() == 0 {
        0
    } else {
        closed_count(ds.drop_last()) + (if ds.last() is Closed {
            1nat
        } else {
            0nat
        })
    }
}

/// An event that does not satisfy an interceptor's filter is never delivered
/// to it, and leaves its delivered count as it was.
pub proof fn lemma_unmatched_not_delivered(
    es: Seq<(Filter, nat)>,
    e: Event,
    ds: Seq<Delivery>,
    i: int,
)
    requires
        ds.len() == es.len(),
        0 <= i < ds.len(),
        forall|j: int| 0 <= j < ds.len() ==> outcome_allowed(es[j], e, #[trigger] ds[j]),
        !filter_matches(es[i].0, e),
    ensures
        !(ds[i] is Delivered),
        after_send(es[i].1, ds[i]) == es[i].1,
{
    assert(outcome_allowed(es[i], e, ds[i]));
}

/// A dispatch removes exactly the interceptors whose requester was found
/// gone, and keeps every other one.
pub proof fn lemma_closed_removed(es: Seq<(Filter, nat)>, ds: Seq<Delivery>)
    requires
        ds.len() <= es.len(),
    ensures
        survivors(es, ds).len() + closed_count(ds) == ds.len(),
        closed_count(ds) == 0 ==> survivors(es, ds).len() == ds.len(),
    decreases ds.len(),
{
    if ds.len() > 0 {
        lemma_closed_removed(es, ds.drop_last());
    }
}

/// After a dispatch in which every requester was gone, no interceptor is left.
pub proof fn lemma_all_closed_empty(es: Seq<(Filter, nat)>, ds: Seq<Delivery>)
    requires
        ds.len() <= es.len(),
        forall|j: int| 0 <= j < ds.len() ==> #[trigger] ds[j] is Closed,
    ensures
        survivors(es, ds).len() == 0,
    decreases ds.len(),
{
    if ds.len() > 0 {
        let rest = ds.drop_last();
        assert forall|j: int| 0 <= j < rest.len() implies #[trigger] rest[j] is Closed by {
            assert(rest[j] == ds[j]);
        }
        lemma_all_closed_empty(es, rest);
        assert(ds[ds.len() - 1] is Closed);
    }
}

/// An interceptor with a maximum of one delivers exactly one event and then
/// refuses every later one, even before the first is read.
pub proof fn lemma_single_delivery(ds: Seq<Delivery>)
    requires
        valid_sends(0, 1, ds),
        ds.len() > 0,
        ds[0] is Delivered,
    ensures
        delivered(ds) == 1,
        forall|j: int| 1 <= j < ds.len() ==> #[trigger] ds[j] is Exhausted,
{
    let rest = ds.drop_first();
    lemma_exhausted_stays(1, 1, rest);
    lemma_bounded_deliveries(0, 1, ds);
    assert forall|j: int| 1 <= j < ds.len() implies #[trigger] ds[j] is Exhausted by {
        assert(ds[j] == rest[j - 1]);
    }
    lemma_none_delivered(rest);
}

proof fn lemma_none_delivered(ds: Seq<Delivery>)
    requires
        forall|j: int| 0 <= j < ds.len() ==> #[trigger] ds[j] is Exhausted,
    ensures
        delivered(ds) == 0,
    decreases ds.len(),
{
    if ds.len() > 0 {
        let rest = ds.drop_first();
        assert forall|j: int| 0 <= j < rest.len() implies #[trigger] rest[j] is Exhausted by {
            assert(rest[j] == ds[j + 1]);
        }
        lemma_none_delivered(rest);
    }
}

} // verus!
