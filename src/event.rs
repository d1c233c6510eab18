use vstd::prelude::*;

verus! {

/// A message posted in a channel.
pub struct Message {
    pub id: u64,
    pub author_id: u64,
    pub channel_id: u64,
    pub guild_id: Option<u64>,
    pub content: String,
}

/// A reaction added to a message.
pub struct Reaction {
    pub user_id: u64,
    pub channel_id: u64,
    pub guild_id: Option<u64>,
    pub message_id: u64,
}

/// One event of the gateway stream, reduced to the kinds the middleware reads.
pub enum Event {
    MessageCreate(Message),
    ReactionAdd(Reaction),
    Other,
}

/// The event is a message written by `user`.
pub open spec fn authored_by(e: Event, user: u64) -> bool {
    match e {
        Event::MessageCreate(m) => m.author_id == user,
        _ => false,
    }
}

} // verus!
