//! Event middleware for a real-time gateway stream: an ordered chain of
//! middleware units run once per event, a few built-in units, and a registry
//! of interceptors that hand matching events to whoever waits for them.
pub mod cache;
pub mod chain;
pub mod channel;
pub mod command;
pub mod context;
pub mod event;
pub mod ignore_self;
pub mod interceptors;

pub use cache::{Cache, CacheError, CacheMiddleware};
pub use chain::{MiddlewareStack, Next};

pub use context::{Context, Local};
pub use event::{Event, Message, Reaction};
pub use ignore_self::IgnoreSelf;
pub use command::{Command, Route};
pub use interceptors::{
    reaction_request, Delivery, Filter, FilterEvent, Interceptor, InterceptorAction, Interceptors,
    ReactionFilter,
};
