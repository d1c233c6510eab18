use vstd::prelude::*;
use vstd::string::*;
use vstd::utf8::*;

use crate::event::Event;

verus! {

/// What the command router does with an event.
pub enum Route {
    /// The prefix matched: invoke the handler with the rest of the content;
    /// the handler decides whether the chain goes on.
    Invoke(String),
    /// Not a matching message: the chain goes on.
    Continue,
}

/// `prefix` is a byte prefix of `content`.
pub open spec fn has_prefix(content: Seq<u8>, prefix: Seq<u8>) -> bool {
    prefix.len() <= content.len() && content.subrange(0, prefix.len() as int) == prefix
}

/// The bytes handed to the handler, or `None` when the router passes the
/// event on: a message whose content starts with `prefix` gives what follows
/// the prefix.
pub open spec fn routed(prefix: Seq<u8>, e: Event) -> Option<Seq<u8>> {
    match e {
        Event::MessageCreate(m) => {
            let content = encode_utf8(m.content@);
            if has_prefix(content, prefix) {
                Some(content.subrange(prefix.len() as int, content.len() as int))
            } else {
                None
            }
        },
        _ => None,
    }
}

/// The unit that hands messages starting with a literal prefix to a handler.
pub struct Command<H> {
    prefix: String,
    handler: H,
}

impl<H> Command<H> {
    pub closed spec fn prefix_spec(&self) -> Seq<char> {
        self.prefix@
    }

    pub closed spec fn handler_spec(&self) -> H {
        self.handler
    }

    pub fn new(prefix: &str, handler: H) -> (r: Command<H>)
        ensures
            r.prefix_spec() == prefix@,
            r.handler_spec() == handler,
    {
        Command { prefix: prefix.to_owned(), handler }
    }

    /// The handler invoked on a match.
    pub fn handler(&self) -> (r: &H)
        ensures
            *r == self.handler_spec(),
    {
        &self.handler
    }

    /// Routes `event`: the remainder for the handler when it is a message
    /// whose content starts with the prefix, byte for byte; else go on.
    pub fn route(&self, event: &Event) -> (r: Route)
        ensures
            match r {
                Route::Invoke(rest) => routed(encode_utf8(self.prefix_spec()), *event) == Some(
                    encode_utf8(rest@),
                ),
                Route::Continue => routed(encode_utf8(self.prefix_spec()), *event) is None,
            },
    {
        match event {
            Event::MessageCreate(m) => {
                let content = m.content.as_str();
                let prefix = self.prefix.as_str();
                let cb = content.as_bytes();
                let pb = prefix.as_bytes();
                assert(pb@ == encode_utf8(self.prefix@));
                assert(cb@ == encode_utf8(m.content@));
                if pb.len() > cb.len() {
                    return Route::Continue;
                }
                let mut i: usize = 0;
                while i < pb.len()
                    invariant
                        pb.len() <= cb.len(),
                        routed(encode_utf8(self.prefix@), *event) is None <==> !has_prefix(cb@, pb@),
                        i <= pb.len(),
                        forall|j: int| 0 <= j < i ==> cb@[j] == pb@[j],
                    decreases pb.len() - i,
                {
                    if cb[i] != pb[i] {
                        assert(cb@.subrange(0, pb@.len() as int)[i as int] != pb@[i as int]);
                        assert(!has_prefix(cb@, pb@));
                        return Route::Continue;
                    }
                    i = i + 1;
                }
                assert(cb@.subrange(0, pb@.len() as int) =~= pb@);
                proof {
                    encode_utf8_valid_utf8(m.content@);
                    encode_utf8_valid_utf8(self.prefix@);
                    lemma_prefix_is_boundary(cb@, pb@);
                }
                let (_, rest) = content.split_at(pb.len());
                let out = rest.to_owned();
                assert(encode_utf8(out@) == rest.spec_bytes());
                Route::Invoke(out)
            },
            _ => Route::Continue,
        }
    }
}

/// A valid encoding that starts with another valid encoding has a character
/// boundary where that one ends.
proof fn lemma_prefix_is_boundary(content: Seq<u8>, prefix: Seq<u8>)
    requires
        valid_utf8(content),
        valid_utf8(prefix),
        has_prefix(content, prefix),
    ensures
        is_char_boundary(content, prefix.len() as int),
    decreases prefix.len(),
{
    if prefix.len() > 0 {
        assert(content[0] == content.subrange(0, prefix.len() as int)[0]);
        let l = length_of_first_scalar(prefix);
        assert(length_of_first_scalar(content) == l);
        let rc = pop_first_scalar(content);
        let rp = pop_first_scalar(prefix);
        assert(rc.subrange(0, rp.len() as int) =~= rp) by {
            assert forall|j: int| 0 <= j < rp.len() implies rc[j] == rp[j] by {
                assert(content.subrange(0, prefix.len() as int)[j + l] == prefix[j + l]);
            }
        }
        lemma_prefix_is_boundary(rc, rp);
    }
}

} // verus!
