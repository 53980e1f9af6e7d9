//! Readiness events and the order in which one batch of them is served.

use vstd::prelude::*;
use vstd::seq_lib::{lemma_multiset_commutative, to_multiset_build};

verus! {

/// Which endpoint an event is about.
#[derive(Clone, Copy, PartialEq, Eq, Debug, Structural)]
pub enum Token {
    /// The encrypted connection to the peer.
    Stream,
    /// The local keyboard.
    Stdin,
    /// The pseudo-terminal on which the shell runs (server only).
    Pty,
}

impl Token {
    /// The number under which the endpoint is registered with the poller.
    pub open spec fn number(self) -> usize {
        match self {
            Token::Stream => 0,
            Token::Stdin => 1,
            Token::Pty => 2,
        }
    }

    /// The number under which the endpoint is registered with the poller.
    pub fn index(self) -> (i: usize)
        ensures
            i == self.number(),
    {
        match self {
            Token::Stream => 0,
            Token::Stdin => 1,
            Token::Pty => 2,
        }
    }

    /// What the poller watches the endpoint for: whether it can be read,
    /// and, where the endpoint is written to, whether it can be written.
    pub fn interest(self) -> (e: Event)
        ensures
            e == (Event { token: self, readable: true, writable: self !is Stdin }),
    {
        match self {
            Token::Stdin => Event { token: self, readable: true, writable: false },
            _ => Event { token: self, readable: true, writable: true },
        }
    }

    /// The endpoint registered under `i`, if there is one.
    pub fn from_index(i: usize) -> (r: Option<Token>)
        ensures
            match r {
                Some(token) => token.number() == i,
                None => i > 2,
            },
    {
        if i == 0 {
            Some(Token::Stream)
        } else if i == 1 {
            Some(Token::Stdin)
        } else if i == 2 {
            Some(Token::Pty)
        } else {
            None
        }
    }
}

/// What to do after one read from an endpoint.
#[derive(Clone, Copy, PartialEq, Eq, Debug, Structural)]
pub enum Step {
    /// A chunk was passed on: read again.
    Again,
    /// The endpoint has nothing more for now: the edge is served.
    Drained,
    /// The endpoint is at its end: the session is over.
    Closed,
}

/// What is left to do about an event once its writable edge is served.
#[derive(Clone, Copy, PartialEq, Eq, Debug, Structural)]
pub enum Task {
    /// Nothing: the event is served.
    Nothing,
    /// Read from the endpoint until it has nothing more for now.
    Read,
    /// Take the packets that the keyboard's reader has made.
    TakePackets,
}

/// One readiness edge reported by the poller. Either bit or both may be set.
#[derive(Clone, Copy, PartialEq, Eq, Debug, Structural)]
pub struct Event {
    pub token: Token,
    pub readable: bool,
    pub writable: bool,
}

impl Event {
    /// What is left to do about the event once its writable edge is served.
    /// The keyboard's packets are taken whatever the event says; another
    /// endpoint is read if the event says that it can be.
    pub open spec fn task(self) -> Task {
        match self.token {
            Token::Stdin => Task::TakePackets,
            _ => if self.readable {
                Task::Read
            } else {
                Task::Nothing
            },
        }
    }
}

/// The events of a batch that are about `token`, in the order reported.
pub open spec fn of_token(events: Seq<Event>, token: Token) -> Seq<Event> {
    events.filter(|e: Event| e.token == token)
}

/// A batch in the order in which it is served: the connection first, then the
/// keyboard, then the pseudo-terminal; events about one endpoint stay in the
/// order reported.
pub open spec fn in_service_order(events: Seq<Event>) -> Seq<Event> {
    of_token(events, Token::Stream) + of_token(events, Token::Stdin) + of_token(
        events,
        Token::Pty,
    )
}

/// Appends to `out` the events of the batch that are about `token`.
fn collect(events: &Vec<Event>, token: Token, out: &mut Vec<Event>)
    ensures
        final(out)@ == old(out)@ + of_token(events@, token),
{
    let ghost before = out@;
    let mut i: usize = 0;
    while i < events.len()
        invariant
            i <= events@.len(),
            out@ == before + of_token(events@.take(i as int), token),
        decreases events@.len() - i,
    {
        let e = events[i];
        proof {
            let next = events@.take(i + 1);
            assert(next.drop_last() =~= events@.take(i as int));
            assert(next.last() == e);
            reveal_with_fuel(Seq::filter, 2);
        }
        if e.token == token {
            out.push(e);
        }
        i = i + 1;
    }
    assert(events@.take(events@.len() as int) =~= events@);
}

/// Puts a batch of events into the order in which it is served.
pub fn service_order(events: &Vec<Event>) -> (r: Vec<Event>)
    ensures
        r@ == in_service_order(events@),
{
    let mut out: Vec<Event> = Vec::new();
    collect(events, Token::Stream, &mut out);
    collect(events, Token::Stdin, &mut out);
    collect(events, Token::Pty, &mut out);
    out
}

/// Every event of a batch is served, and none twice: a batch in service
/// order holds the same events as the batch reported, each as often.
pub proof fn lemma_service_order_serves_all(events: Seq<Event>)
    ensures
        in_service_order(events).to_multiset() == events.to_multiset(),
    decreases events.len(),
{
    reveal(Seq::filter);
    if events.len() == 0 {
        assert(in_service_order(events) =~= events);
    } else {
        let rest = events.drop_last();
        let e = events.last();
        lemma_service_order_serves_all(rest);
        let a = of_token(rest, Token::Stream);
        let b = of_token(rest, Token::Stdin);
        let c = of_token(rest, Token::Pty);
        let a2 = of_token(events, Token::Stream);
        let b2 = of_token(events, Token::Stdin);
        let c2 = of_token(events, Token::Pty);
        lemma_multiset_commutative(a, b);
        lemma_multiset_commutative(a + b, c);
        lemma_multiset_commutative(a2, b2);
        lemma_multiset_commutative(a2 + b2, c2);
        to_multiset_build(a, e);
        to_multiset_build(b, e);
        to_multiset_build(c, e);
        to_multiset_build(rest, e);
        assert(rest.push(e) =~= events);
        match e.token {
            Token::Stream => {
                assert(a2 == a.push(e) && b2 == b && c2 == c);
            },
            Token::Stdin => {
                assert(a2 == a && b2 == b.push(e) && c2 == c);
            },
            Token::Pty => {
                assert(a2 == a && b2 == b && c2 == c.push(e));
            },
        }
        let served = in_service_order(events).to_multiset();
        assert(served =~= in_service_order(rest).to_multiset().insert(e));
    }
}

} // verus!
