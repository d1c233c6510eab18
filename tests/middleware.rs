use std::sync::Arc;

use twilight_middleware::{
    Cache, CacheError, CacheMiddleware, Command, Context, Event, IgnoreSelf, Message,
    MiddlewareStack, Reaction, Route,
};

fn message(author_id: u64, content: &str) -> Event {
    Event::MessageCreate(Message {
        id: 10,
        author_id,
        channel_id: 20,
        guild_id: Some(30),
        content: content.to_string(),
    })
}

fn reaction() -> Event {
    Event::ReactionAdd(Reaction { user_id: 1, channel_id: 20, guild_id: Some(30), message_id: 10 })
}

fn unit_stack(n: usize) -> MiddlewareStack<u32, usize> {
    let mut stack = MiddlewareStack::new(7u32);
    for i in 0..n {
        stack = stack.push(i);
    }
    stack
}

#[test]
fn chain_runs_every_unit_in_order() {
    let stack = unit_stack(3);
    let (_ctx, mut next): (Context<()>, _) = stack.handle(Event::Other);
    let mut seen = Vec::new();
    while let Some((i, rest)) = next.run() {
        seen.push(*stack.middleware(i));
        next = rest;
    }
    assert_eq!(seen, vec![0, 1, 2]);
    assert_eq!(**stack.state(), 7);
}

#[test]
fn chain_stops_where_a_unit_does_not_continue() {
    let stack = unit_stack(4);
    let (_ctx, mut next): (Context<()>, _) = stack.handle(Event::Other);
    let mut seen = Vec::new();
    loop {
        match next.run() {
            Some((i, rest)) => {
                seen.push(i);
                if i == 1 {
                    break;
                }
                next = rest;
            }
            None => break,
        }
    }
    assert_eq!(seen, vec![0, 1]);
}

#[test]
fn empty_chain_ends_at_once() {
    let stack = unit_stack(0);
    assert_eq!(stack.len(), 0);
    let (_ctx, next): (Context<()>, _) = stack.handle(Event::Other);
    assert!(next.run().is_none());
}

#[test]
fn each_run_has_its_own_scratch_store() {
    let stack = unit_stack(1);
    let (mut first, _): (Context<u8>, _) = stack.handle(message(1, "a"));
    let (second, _): (Context<u8>, _) = stack.handle(message(2, "b"));
    first.insert_cache(Cache::new(Arc::new(5u8)));
    assert!(first.local().cache.is_some());
    assert!(second.local().cache.is_none());
}

#[test]
fn command_hands_remainder_to_handler() {
    let cmd = Command::new("!ping", 3u8);
    match cmd.route(&message(1, "!pingfoo")) {
        Route::Invoke(rest) => assert_eq!(rest, "foo"),
        Route::Continue => panic!("prefix should match"),
    }
    assert_eq!(*cmd.handler(), 3);
}

#[test]
fn command_passes_on_short_content() {
    let cmd = Command::new("!ping", ());
    assert!(matches!(cmd.route(&message(1, "!pi")), Route::Continue));
}

#[test]
fn command_exact_prefix_gives_empty_remainder() {
    let cmd = Command::new("!ping", ());
    match cmd.route(&message(1, "!ping")) {
        Route::Invoke(rest) => assert_eq!(rest, ""),
        Route::Continue => panic!("prefix should match"),
    }
}

#[test]
fn command_is_case_sensitive_and_ignores_other_events() {
    let cmd = Command::new("!ping", ());
    assert!(matches!(cmd.route(&message(1, "!PINGfoo")), Route::Continue));
    assert!(matches!(cmd.route(&reaction()), Route::Continue));
    assert!(matches!(cmd.route(&Event::Other), Route::Continue));
}

#[test]
fn command_keeps_multibyte_remainder() {
    let cmd = Command::new("hé", ());
    match cmd.route(&message(1, "héllo ü")) {
        Route::Invoke(rest) => assert_eq!(rest, "llo ü"),
        Route::Continue => panic!("prefix should match"),
    }
}

#[test]
fn self_filter_drops_own_messages() {
    let filter = IgnoreSelf::new();
    assert!(!filter.handle(&message(42, "hi"), Some(42)));
    assert!(filter.handle(&message(43, "hi"), Some(42)));
    assert!(filter.handle(&reaction(), Some(1)));
    assert!(filter.handle(&message(0, "hi"), None));
}

#[test]
fn self_filter_needs_published_cache() {
    let filter = IgnoreSelf::new();
    let mut ctx: Context<u8> = Context::new(Event::Other);
    assert!(filter.cache(&ctx).is_none());
    ctx.insert_cache(Cache::new(Arc::new(9u8)));
    assert_eq!(**filter.cache(&ctx).unwrap().get(), 9);
}

#[test]
fn cache_unit_publishes_after_update() {
    let unit = CacheMiddleware::new(11u32);
    let mut ctx: Context<u32> = Context::new(message(1, "x"));
    assert_eq!(unit.handle(&mut ctx, Ok::<(), String>(())), Ok(()));
    let published = ctx.local().cache.as_ref().unwrap().get();
    assert!(Arc::ptr_eq(published, unit.cache().get()));
    assert_eq!(**published, 11);
}

#[test]
fn cache_unit_aborts_on_failed_update() {
    let unit = CacheMiddleware::new(11u32);
    let mut ctx: Context<u32> = Context::new(message(1, "x"));
    let r = unit.handle(&mut ctx, Err::<(), &str>("inconsistent"));
    assert_eq!(r, Err(CacheError::UpdateFailed));
    assert!(ctx.local().cache.is_none());
}
