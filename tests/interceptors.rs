use std::sync::Arc;

use futures::channel::mpsc::channel;
use twilight_middleware::{
    reaction_request, Delivery, Event, Filter, FilterEvent, Interceptor, InterceptorAction,
    Interceptors, Message, Reaction, ReactionFilter,
};

fn reaction(channel_id: u64, message_id: u64) -> Event {
    Event::ReactionAdd(Reaction { user_id: 1, channel_id, guild_id: Some(30), message_id })
}

fn message() -> Event {
    Event::MessageCreate(Message {
        id: 1,
        author_id: 2,
        channel_id: 3,
        guild_id: None,
        content: "hello".to_string(),
    })
}

#[test]
fn new_filter_takes_one_reaction_anywhere() {
    let f = Filter::new(FilterEvent::Reaction);
    assert_eq!(f.max, 1);
    assert!(f.guild_id.is_none() && f.channel_id.is_none() && f.message_id.is_none());
    assert!(f.matches(&reaction(5, 6)));
    assert!(!f.matches(&message()));
    assert!(!f.matches(&Event::Other));
}

#[test]
fn scoped_filter_needs_equal_fields() {
    let mut f = Filter::new(FilterEvent::Reaction);
    f.channel_id = Some(5);
    f.message_id = Some(6);
    assert!(f.matches(&reaction(5, 6)));
    assert!(!f.matches(&reaction(5, 7)));
    assert!(!f.matches(&reaction(4, 6)));
    f.guild_id = Some(31);
    assert!(!f.matches(&reaction(5, 6)));
}

#[test]
fn max_one_delivers_exactly_once() {
    let (tx, mut rx) = channel(100);
    let mut it = Interceptor::new(tx, Filter::new(FilterEvent::Reaction));
    assert_eq!(it.send(Arc::new(reaction(1, 2))), Delivery::Delivered);
    assert_eq!(it.send(Arc::new(reaction(1, 3))), Delivery::Exhausted);
    assert_eq!(it.send(Arc::new(reaction(1, 4))), Delivery::Exhausted);
    assert!(rx.try_next().unwrap().is_some());
    assert!(rx.try_next().is_err());
}

#[test]
fn full_channel_drops_the_event() {
    let (tx, _rx) = channel(0);
    let mut f = Filter::new(FilterEvent::Reaction);
    f.max = 5;
    let mut it = Interceptor::new(tx, f);
    assert_eq!(it.send(Arc::new(reaction(1, 2))), Delivery::Delivered);
    assert_eq!(it.send(Arc::new(reaction(1, 3))), Delivery::Full);
}

#[test]
fn dropped_requester_is_swept() {
    let (tx, rx) = channel(100);
    let mut live = Interceptors::new();
    live.apply(Box::new(InterceptorAction::AddInterceptor(Interceptor::new(
        tx,
        Filter::new(FilterEvent::Reaction),
    ))));
    assert_eq!(live.len(), 1);
    drop(rx);
    let out = live.dispatch(Arc::new(reaction(1, 2)));
    assert_eq!(out, vec![Delivery::Closed]);
    assert_eq!(live.len(), 0);
    assert!(live.dispatch(Arc::new(reaction(1, 2))).is_empty());
}

#[test]
fn unmatched_event_is_never_delivered() {
    let (tx, mut rx) = channel(100);
    let mut f = Filter::new(FilterEvent::Reaction);
    f.message_id = Some(6);
    let mut live = Interceptors::new();
    live.apply(Box::new(InterceptorAction::AddInterceptor(Interceptor::new(tx, f))));
    assert_eq!(live.dispatch(Arc::new(message())), vec![Delivery::Skipped]);
    assert_eq!(live.dispatch(Arc::new(reaction(5, 7))), vec![Delivery::Skipped]);
    assert_eq!(live.len(), 1);
    assert!(rx.try_next().is_err());
    assert_eq!(live.dispatch(Arc::new(reaction(5, 6))), vec![Delivery::Delivered]);
    assert!(rx.try_next().unwrap().is_some());
}

#[test]
fn exhausted_interceptor_stays_until_closed() {
    let (tx, mut rx) = channel(100);
    let mut live = Interceptors::new();
    live.apply(Box::new(InterceptorAction::AddInterceptor(Interceptor::new(
        tx,
        Filter::new(FilterEvent::Reaction),
    ))));
    assert_eq!(live.dispatch(Arc::new(reaction(1, 2))), vec![Delivery::Delivered]);
    assert_eq!(live.dispatch(Arc::new(reaction(1, 3))), vec![Delivery::Exhausted]);
    assert_eq!(live.len(), 1);
    assert!(rx.try_next().unwrap().is_some());
    drop(rx);
    assert_eq!(live.dispatch(Arc::new(reaction(1, 4))), vec![Delivery::Closed]);
    assert_eq!(live.len(), 0);
}

#[test]
fn reaction_filter_registers_through_the_control_channel() {
    let (mut gateway, mut control) = channel(10);
    let mut waiter = ReactionFilter::new(&mut gateway);
    assert_eq!(waiter.registration, Delivery::Delivered);
    let action = control.try_next().unwrap().unwrap();
    let mut live = Interceptors::new();
    live.apply(action);
    assert_eq!(live.len(), 1);
    assert_eq!(live.dispatch(Arc::new(message())), vec![Delivery::Skipped]);
    assert_eq!(live.dispatch(Arc::new(reaction(8, 9))), vec![Delivery::Delivered]);
    let got = waiter.rx.try_next().unwrap().unwrap();
    assert!(matches!(*got, Event::ReactionAdd(Reaction { message_id: 9, .. })));
}

#[test]
fn registration_on_closed_control_channel_is_dropped() {
    let (mut gateway, control) = channel::<Box<InterceptorAction>>(10);
    drop(control);
    let mut waiter = ReactionFilter::new(&mut gateway);
    assert_eq!(waiter.registration, Delivery::Closed);
    assert!(waiter.rx.try_next().unwrap_or(None).is_none());
}

#[test]
fn reaction_request_takes_one_reaction() {
    let (tx, mut rx) = channel(100);
    let mut live = Interceptors::new();
    live.apply(reaction_request(tx));
    assert_eq!(live.dispatch(Arc::new(message())), vec![Delivery::Skipped]);
    assert_eq!(live.dispatch(Arc::new(reaction(1, 2))), vec![Delivery::Delivered]);
    assert_eq!(live.dispatch(Arc::new(reaction(3, 4))), vec![Delivery::Exhausted]);
    assert!(rx.try_next().unwrap().is_some());
    assert!(rx.try_next().is_err());
}

#[test]
fn offer_steps_by_requester_and_filter() {
    let (tx, mut rx) = channel(100);
    let mut it = Interceptor::new(tx, Filter::new(FilterEvent::Reaction));
    assert_eq!(it.offer(Arc::new(reaction(1, 2)), true), Delivery::Closed);
    assert_eq!(it.offer(Arc::new(message()), false), Delivery::Skipped);
    assert!(rx.try_next().is_err());
    assert_eq!(it.offer(Arc::new(reaction(1, 2)), false), Delivery::Delivered);
    assert_eq!(it.offer(Arc::new(reaction(1, 3)), false), Delivery::Exhausted);
    assert!(!it.is_closed());
    drop(rx);
    assert!(it.is_closed());
}
