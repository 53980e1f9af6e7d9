//! The viewing side of a session: the connection to the server and the local
//! screen.

use std::io::{Read, Write};
use std::ops::{Deref, DerefMut};
use vstd::prelude::*;
use vstd::slice::slice_subrange;
use vstd::utf8::encode_utf8;
use crate::event::{Event, Step, Task, Token};
use crate::patient::{
    carries_on, cut_short, edge_ran_on, edge_served, lemma_ended_well, lemma_stays, submit_ran,
    Ledger, PatientWriter,
};
use crate::screen::{Screen, ScreenView};
use crate::secret::Credentials;
use crate::sink::{is_would_block, source_read};
use crate::stdin::PacketQueue;
use crate::{maybe, spec_maybe, PASSLEN};

verus! {

/// What the viewing side has done with the bytes that came its way.
pub struct ClientView {
    /// Bytes for the server.
    pub stream: Ledger,
    /// Bytes for the local screen.
    pub screen: ScreenView,
}

/// Something that happens to the viewing side and leaves the session
/// running.
pub enum Happening {
    /// Bytes were given to be sent to the server: the password, or what came
    /// from the local keyboard in one packet or in several.
    Sent(Seq<u8>),
    /// A chunk came from the server.
    FromServer(Seq<u8>),
    /// A writable edge was served, or a readable edge ended.
    Quiet,
}

/// How the viewing side changes when something happens to it. What is given
/// to be sent is for the server and does not touch the screen. What comes
/// from the server is shown on the screen. Otherwise no byte is taken in,
/// though pending ones may move on.
pub open spec fn took_place(pre: ClientView, what: Happening, post: ClientView) -> bool {
    match what {
        Happening::Sent(bytes) => {
            &&& post.screen == pre.screen
            &&& carries_on(pre.stream, bytes, post.stream)
        },
        Happening::FromServer(chunk) => {
            &&& post.stream == pre.stream
            &&& post.screen == pre.screen.showing(chunk)
        },
        Happening::Quiet => {
            &&& post.screen.shown == pre.screen.shown
            &&& carries_on(pre.stream, Seq::empty(), post.stream)
        },
    }
}

/// How the viewing side may change when it takes the packets `waiting` in
/// the keyboard's queue and leaves `left` there: the connection takes
/// them as a writer takes packets, and nothing else changes.
pub open spec fn packets_taken(
    pre: ClientView,
    waiting: Seq<Seq<u8>>,
    r: Result<(), std::io::Error>,
    left: Seq<Seq<u8>>,
    post: ClientView,
) -> bool {
    &&& post.screen == pre.screen
    &&& crate::patient::packets_taken(pre.stream, waiting, r, left, post.stream)
}

/// How the viewing side may change on a writable edge of the endpoint named
/// by `token`. The keyboard has none. On the connection's edge the server's
/// writer catches up.
pub open spec fn writable_served(
    pre: ClientView,
    token: Token,
    r: Result<(), std::io::Error>,
    post: ClientView,
) -> bool {
    &&& post.screen == pre.screen
    &&& match token {
        Token::Stream => edge_served(pre.stream, r, post.stream) && edge_ran_on(
            pre.stream,
            post.stream,
            r,
        ),
        _ => r is Ok && post == pre,
    }
}

/// What the viewing side makes of the connection's answer to one read into
/// `scratch`. A chunk is shown on the screen, and where the screen fails
/// nothing has changed. No byte ends the session. "Would block" ends the
/// edge, and the screen is flushed. Any other failure is returned.
pub open spec fn stream_answered(
    pre: ClientView,
    scratch: Seq<u8>,
    answer: Result<usize, std::io::Error>,
    r: Result<Step, std::io::Error>,
    post: ClientView,
) -> bool {
    match spec_maybe(answer) {
        Ok(Some(n)) => if n == 0 {
            r == Ok::<Step, std::io::Error>(Step::Closed) && post == pre
        } else {
            match r {
                Ok(step) => step == Step::Again && took_place(
                    pre,
                    Happening::FromServer(scratch.take(n as int)),
                    post,
                ),
                Err(_) => post == pre,
            }
        },
        Ok(None) => {
            &&& post == (ClientView { screen: pre.screen.flushed(), ..pre })
            &&& r matches Ok(step) ==> step == Step::Drained
        },
        Err(e) => r == Err::<Step, std::io::Error>(e) && post == pre,
    }
}

/// How the viewing side may change when it opens the session with
/// `password`. Where all goes well the password is for the server and the
/// connection is flushed once. It fails where the write fails, with the
/// password cut short and no flush, and where the flush fails after the
/// whole password was taken.
pub open spec fn greeted(
    pre: ClientView,
    password: Seq<u8>,
    r: Result<(), std::io::Error>,
    post: ClientView,
) -> bool {
    &&& post.screen == pre.screen
    &&& match r {
        Ok(_) => {
            &&& took_place(pre, Happening::Sent(password), post)
            &&& post.stream.flushes == pre.stream.flushes + 1
        },
        Err(e) => {
            &&& !is_would_block(e)
            &&& {
                ||| post.stream.flushes == pre.stream.flushes && cut_short(
                    pre.stream,
                    password,
                    post.stream,
                )
                ||| post.stream.flushes == pre.stream.flushes + 1 && carries_on(
                    pre.stream,
                    password,
                    post.stream,
                )
            }
        },
    }
    &&& if post.stream.flushes == pre.stream.flushes {
        submit_ran(pre.stream, password, post.stream, r)
    } else {
        submit_ran(
            pre.stream,
            password,
            Ledger { flushes: pre.stream.flushes, ..post.stream },
            Ok(()),
        )
    }
}

/// The viewing side of a session. It owns the connection `S` and the local
/// terminal `O`, and keeps for each the record of what it was given.
pub struct Client<S, O> {
    stream: PatientWriter<S>,
    screen: Screen<O>,
}

impl<S, O> View for Client<S, O> {
    type V = ClientView;

    closed spec fn view(&self) -> ClientView {
        ClientView { stream: self.stream@, screen: self.screen@ }
    }
}

impl<S, O> Client<S, O> {
    /// The connection.
    pub closed spec fn stream(&self) -> S {
        self.stream.inner()
    }
}

impl<S: Read + Write, O: Write> Client<S, O> {
    /// A session over a connection and the local terminal. No byte has
    /// moved yet.
    pub fn new(stream: S, out: O) -> (r: Self)
        ensures
            r@.stream == Ledger::fresh(),
            r@.screen == ScreenView::fresh(),
            r.stream() == stream,
    {
        Client { stream: PatientWriter::new(stream), screen: Screen::new(out) }
    }

    /// The connection, for the poller.
    pub fn stream_ref(&self) -> (s: &S)
        ensures
            *s == self.stream(),
    {
        self.stream.deref()
    }

    /// The connection, for settings of the socket behind it.
    pub fn stream_mut(&mut self) -> (s: &mut S)
        ensures
            *s == old(self).stream(),
            final(self).stream() == *final(s),
            final(self)@ == old(self)@,
    {
        self.stream.deref_mut()
    }

    /// Opens the session: sends the password to the server, `PASSLEN` bytes,
    /// and flushes the connection.
    pub fn greet(&mut self, credentials: &Credentials) -> (r: Result<(), std::io::Error>)
        ensures
            encode_utf8(credentials@.1).len() == PASSLEN,
            greeted(old(self)@, encode_utf8(credentials@.1), r, final(self)@),
    {
        match self.stream.submit(credentials.password().as_bytes()) {
            Ok(_) => {},
            Err(e) => {
                return Err(e);
            },
        }
        let ghost mid = self@;
        let r = self.stream.flush();
        assert(self@.stream.accepted() =~= mid.stream.accepted());
        r
    }

    /// Serves a writable edge of the endpoint named by `token`. On the
    /// connection it hands the pending bytes to the connection, and flushes
    /// the connection if any moved. The keyboard has nothing to write to.
    pub fn writable(&mut self, token: Token) -> (r: Result<(), std::io::Error>)
        requires
            token !is Pty,
        ensures
            writable_served(old(self)@, token, r, final(self)@),
            r is Ok ==> took_place(old(self)@, Happening::Quiet, final(self)@),
            r matches Err(e) ==> !is_would_block(e),
    {
        proof {
            lemma_stays(self@.stream);
        }
        match token {
            Token::Stream => self.stream.on_writable(),
            _ => Ok(()),
        }
    }

    /// Begins to serve an event: serves its writable edge, if it has one, and
    /// says what is left to do.
    pub fn attend(&mut self, event: Event) -> (r: Result<Task, std::io::Error>)
        requires
            event.token !is Pty,
        ensures
            match r {
                Ok(task) => {
                    &&& task == event.task()
                    &&& if event.writable {
                        writable_served(old(self)@, event.token, Ok(()), final(self)@)
                    } else {
                        final(self)@ == old(self)@
                    }
                    &&& took_place(old(self)@, Happening::Quiet, final(self)@)
                },
                Err(e) => {
                    &&& event.writable
                    &&& !is_would_block(e)
                    &&& writable_served(old(self)@, event.token, Err(e), final(self)@)
                },
            },
    {
        proof {
            lemma_stays(self@.stream);
        }
        if event.writable {
            let served = self.writable(event.token);
            match served {
                Ok(_) => {
                    proof {
                        lemma_ended_well(served);
                    }
                },
                Err(e) => {
                    return Err(e);
                },
            }
        }
        match event.token {
            Token::Stdin => Ok(Task::TakePackets),
            _ => if event.readable {
                Ok(Task::Read)
            } else {
                Ok(Task::Nothing)
            },
        }
    }

    /// Decides what an answer of the connection to one read means, and acts
    /// on it. A chunk is shown on the local screen. No byte means that the
    /// server has left. "Would block" ends the edge: the screen is flushed.
    /// Any other failure is returned.
    pub fn stream_answer(&mut self, scratch: &[u8], answer: Result<usize, std::io::Error>) -> (r:
        Result<Step, std::io::Error>)
        requires
            answer matches Ok(n) ==> n <= scratch@.len(),
        ensures
            stream_answered(old(self)@, scratch@, answer, r, final(self)@),
            r matches Ok(step) && step != Step::Again ==> took_place(
                old(self)@,
                Happening::Quiet,
                final(self)@,
            ),
    {
        match maybe(answer) {
            Ok(Some(n)) => {
                if n == 0 {
                    return Ok(Step::Closed);
                }
                let chunk = slice_subrange(scratch, 0, n);
                match self.screen.show(chunk) {
                    Ok(_) => Ok(Step::Again),
                    Err(e) => Err(e),
                }
            },
            Ok(None) => {
                match self.screen.flush() {
                    Ok(_) => Ok(Step::Drained),
                    Err(e) => Err(e),
                }
            },
            Err(e) => Err(e),
        }
    }

    /// Reads once from the endpoint named by `token` into `scratch` and acts
    /// on the answer, from the connection as `stream_answer` says. The
    /// keyboard is not read here: what is typed arrives as packets.
    pub fn readable(&mut self, token: Token, scratch: &mut [u8]) -> (r: Result<
        Step,
        std::io::Error,
    >)
        requires
            token !is Pty,
        ensures
            final(scratch)@.len() == old(scratch)@.len(),
            token is Stdin ==> r == Ok::<Step, std::io::Error>(Step::Drained) && final(self)@
                == old(self)@,
            token is Stream ==> exists|answer: Result<usize, std::io::Error>|
                {
                    &&& answer matches Ok(n) ==> n <= final(scratch)@.len()
                    &&& #[trigger] stream_answered(
                        old(self)@,
                        final(scratch)@,
                        answer,
                        r,
                        final(self)@,
                    )
                },
    {
        match token {
            Token::Stream => {
                let answer = source_read(self.stream.deref_mut(), scratch);
                let ghost given = answer;
                let r = self.stream_answer(scratch, answer);
                assert(stream_answered(old(self)@, scratch@, given, r, self@));
                r
            },
            _ => Ok(Step::Drained),
        }
    }

    /// Takes the packets that wait in the keyboard's queue, oldest first,
    /// sends each to the server behind everything sent to it before, and
    /// flushes the connection.
    pub fn take_packets(&mut self, queue: &mut PacketQueue) -> (r: Result<(), std::io::Error>)
        ensures
            packets_taken(old(self)@, old(queue)@, r, final(queue)@, final(self)@),
            r is Ok ==> took_place(
                old(self)@,
                Happening::Sent(old(queue)@.flatten()),
                final(self)@,
            ),
    {
        self.stream.take_packets(queue)
    }
}

/// The bytes that a run of happenings gives to be sent to the server, in
/// the order in which they were given.
pub open spec fn for_server(run: Seq<Happening>) -> Seq<u8>
    decreases run.len(),
{
    if run.len() == 0 {
        Seq::empty()
    } else {
        for_server(run.drop_last()) + (match run.last() {
            Happening::Sent(bytes) => bytes,
            _ => Seq::empty(),
        })
    }
}

/// The bytes that come from the server in a run of happenings, in the order
/// in which they came.
pub open spec fn from_server(run: Seq<Happening>) -> Seq<u8>
    decreases run.len(),
{
    if run.len() == 0 {
        Seq::empty()
    } else {
        from_server(run.drop_last()) + (match run.last() {
            Happening::FromServer(chunk) => chunk,
            _ => Seq::empty(),
        })
    }
}

/// Bytes pass through the viewing side unchanged. Take it from its first
/// state through any run of happenings. Then the server has been given, or
/// will be given before anything else, exactly the password and what was
/// typed, in the order in which it was given; and the screen shows exactly
/// what came from the server.
pub proof fn lemma_bytes_pass_unchanged(states: Seq<ClientView>, run: Seq<Happening>)
    requires
        states.len() == run.len() + 1,
        states[0].stream.accepted() == Seq::<u8>::empty(),
        states[0].screen.shown == Seq::<u8>::empty(),
        forall|i: int|
            0 <= i < run.len() ==> took_place(states[i], run[i], #[trigger] states[i + 1]),
    ensures
        states.last().stream.accepted() == for_server(run),
        states.last().stream.delivered.is_prefix_of(for_server(run)),
        states.last().screen.shown == from_server(run),
    decreases run.len(),
{
    if run.len() > 0 {
        let earlier = states.drop_last();
        let before = run.drop_last();
        assert forall|i: int| 0 <= i < before.len() implies took_place(
            earlier[i],
            before[i],
            #[trigger] earlier[i + 1],
        ) by {
            assert(took_place(states[i], run[i], states[i + 1]));
        }
        lemma_bytes_pass_unchanged(earlier, before);
        let n: int = run.len() as int;
        assert(took_place(states[n - 1], run[n - 1], states[n - 1 + 1]));
        let pre = states[n - 1];
        let post = states[n];
        assert(pre == earlier.last());
        match run.last() {
            Happening::Sent(bytes) => {
                assert(post.screen.shown + Seq::<u8>::empty() =~= post.screen.shown);
            },
            Happening::FromServer(chunk) => {
                assert(post.stream.accepted() + Seq::<u8>::empty() =~= post.stream.accepted());
            },
            Happening::Quiet => {
                assert(post.screen.shown + Seq::<u8>::empty() =~= post.screen.shown);
            },
        }
        assert(for_server(before) + Seq::<u8>::empty() =~= for_server(before));
        assert(from_server(before) + Seq::<u8>::empty() =~= from_server(before));
    }
    let last = states.last();
    assert(last.stream.delivered =~= last.stream.accepted().subrange(
        0,
        last.stream.delivered.len() as int,
    ));
}

} // verus!
