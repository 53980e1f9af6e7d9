//! The serving side of a session: the connection to the viewer, the
//! pseudo-terminal on which the shell runs, and the local screen that shows
//! what the viewer sees.

use std::io::{Read, Write};
use std::ops::{Deref, DerefMut};
use vstd::prelude::*;
use vstd::slice::slice_subrange;
use crate::event::{Event, Step, Task, Token};
use crate::patient::{
    carries_on, caught_up, cut_short, edge_ran_on, edge_served, lemma_ended_well, lemma_stays,
    submit_ran, Ledger, PatientWriter,
};
use crate::screen::{Screen, ScreenView};
use crate::secret::Admission;
use crate::sink::{is_would_block, source_read};
use crate::stdin::PacketQueue;
use crate::{maybe, spec_maybe};

verus! {

/// What the serving side has done with the bytes that came its way.
pub struct ServerView {
    /// Bytes for the viewer.
    pub stream: Ledger,
    /// Bytes for the shell.
    pub master: Ledger,
    /// Bytes for the local screen.
    pub screen: ScreenView,
}

impl ServerView {
    /// The viewer is sent what the local screen shows, byte for byte.
    pub open spec fn mirrored(self) -> bool {
        self.stream.accepted() == self.screen.shown
    }
}

/// Something that happens to the serving side and leaves the session
/// running.
pub enum Happening {
    /// A chunk came from the viewer.
    FromViewer(Seq<u8>),
    /// Bytes came from the local keyboard, in one packet or in several.
    Typed(Seq<u8>),
    /// A chunk came from the shell.
    FromShell(Seq<u8>),
    /// A writable edge was served, or a readable edge ended.
    Quiet,
}

/// How the serving side changes when something happens to it. What comes
/// from the viewer or the keyboard is for the shell and for nobody else.
/// What comes from the shell is shown on the screen and is for the viewer.
/// Otherwise no byte is taken in, though pending ones may move on.
pub open spec fn took_place(pre: ServerView, what: Happening, post: ServerView) -> bool {
    match what {
        Happening::FromViewer(chunk) => {
            &&& post.stream == pre.stream
            &&& post.screen == pre.screen
            &&& carries_on(pre.master, chunk, post.master)
        },
        Happening::Typed(bytes) => {
            &&& post.stream == pre.stream
            &&& post.screen == pre.screen
            &&& carries_on(pre.master, bytes, post.master)
        },
        Happening::FromShell(chunk) => {
            &&& post.master == pre.master
            &&& post.screen == pre.screen.showing(chunk)
            &&& carries_on(pre.stream, chunk, post.stream)
        },
        Happening::Quiet => {
            &&& post.screen.shown == pre.screen.shown
            &&& carries_on(pre.stream, Seq::empty(), post.stream)
            &&& carries_on(pre.master, Seq::empty(), post.master)
        },
    }
}

/// How a step ends: well, or with its failure.
pub open spec fn ended(r: Result<Step, std::io::Error>) -> Result<(), std::io::Error> {
    match r {
        Ok(_) => Ok(()),
        Err(e) => Err(e),
    }
}

/// How the serving side may change on a chunk from the connection: the
/// chunk is for the shell, whose writer takes it in as it takes in any
/// buffer; where that writer fails, the step fails with it and the chunk is
/// cut short.
pub open spec fn chunk_to_shell(
    pre: ServerView,
    chunk: Seq<u8>,
    r: Result<Step, std::io::Error>,
    post: ServerView,
) -> bool {
    &&& post.master.flushes == pre.master.flushes
    &&& submit_ran(pre.master, chunk, post.master, ended(r))
    &&& match r {
        Ok(step) => step == Step::Again && took_place(pre, Happening::FromViewer(chunk), post),
        Err(e) => {
            &&& !is_would_block(e)
            &&& post.stream == pre.stream
            &&& post.screen == pre.screen
            &&& cut_short(pre.master, chunk, post.master)
        },
    }
}

/// How the serving side may change on a chunk from the pseudo-terminal: the
/// chunk is shown on the screen first and then sent to the viewer. Where the
/// screen fails nothing has changed; where the connection fails the screen
/// has the chunk and the viewer's copy is cut short.
pub open spec fn chunk_to_viewer(
    pre: ServerView,
    chunk: Seq<u8>,
    r: Result<Step, std::io::Error>,
    post: ServerView,
) -> bool {
    &&& post.stream.flushes == pre.stream.flushes
    &&& match r {
        Ok(step) => {
            &&& step == Step::Again
            &&& took_place(pre, Happening::FromShell(chunk), post)
            &&& submit_ran(pre.stream, chunk, post.stream, ended(r))
        },
        Err(e) => {
            ||| post == pre
            ||| {
                &&& !is_would_block(e)
                &&& post.master == pre.master
                &&& post.screen == pre.screen.showing(chunk)
                &&& cut_short(pre.stream, chunk, post.stream)
                &&& submit_ran(pre.stream, chunk, post.stream, ended(r))
            }
        },
    }
}

/// How the serving side may change when it takes the packets `waiting` in
/// the keyboard's queue and leaves `left` there: the shell's writer takes
/// them as a writer takes packets, and nothing else changes.
pub open spec fn packets_taken(
    pre: ServerView,
    waiting: Seq<Seq<u8>>,
    r: Result<(), std::io::Error>,
    left: Seq<Seq<u8>>,
    post: ServerView,
) -> bool {
    &&& post.stream == pre.stream
    &&& post.screen == pre.screen
    &&& crate::patient::packets_taken(pre.master, waiting, r, left, post.master)
}

/// How the serving side may change on a writable edge of the endpoint
/// named by `token`. The keyboard has none. On the connection's edge the
/// viewer's writer catches up. On the pseudo-terminal's edge the viewer's
/// writer catches up first and then the shell's; where the first fails, the
/// second is not tried.
pub open spec fn writable_served(
    pre: ServerView,
    token: Token,
    r: Result<(), std::io::Error>,
    post: ServerView,
) -> bool {
    &&& post.screen == pre.screen
    &&& match token {
        Token::Stdin => r is Ok && post == pre,
        Token::Stream => {
            &&& post.master == pre.master
            &&& edge_served(pre.stream, r, post.stream)
            &&& edge_ran_on(pre.stream, post.stream, r)
        },
        Token::Pty => {
            ||| {
                &&& r is Err
                &&& post.master == pre.master
                &&& edge_served(pre.stream, r, post.stream)
                &&& edge_ran_on(pre.stream, post.stream, r)
            }
            ||| {
                &&& caught_up(pre.stream, post.stream)
                &&& edge_ran_on(pre.stream, post.stream, Ok(()))
                &&& edge_served(pre.master, r, post.master)
                &&& edge_ran_on(pre.master, post.master, r)
            }
        },
    }
}

/// What the serving side makes of the connection's answer to one read into
/// `scratch`.
pub open spec fn stream_answered(
    pre: ServerView,
    scratch: Seq<u8>,
    answer: Result<usize, std::io::Error>,
    r: Result<Step, std::io::Error>,
    post: ServerView,
) -> bool {
    match spec_maybe(answer) {
        Ok(Some(n)) => if n == 0 {
            r == Ok::<Step, std::io::Error>(Step::Closed) && post == pre
        } else {
            chunk_to_shell(pre, scratch.take(n as int), r, post)
        },
        Ok(None) => {
            &&& post == (ServerView { master: pre.master.flushed(), ..pre })
            &&& match r {
                Ok(step) => step == Step::Drained,
                Err(e) => !is_would_block(e),
            }
        },
        Err(e) => r == Err::<Step, std::io::Error>(e) && post == pre,
    }
}

/// What the serving side makes of the pseudo-terminal's answer to one read
/// into `scratch`.
pub open spec fn pty_answered(
    pre: ServerView,
    scratch: Seq<u8>,
    answer: Result<usize, std::io::Error>,
    r: Result<Step, std::io::Error>,
    post: ServerView,
) -> bool {
    match spec_maybe(answer) {
        Ok(Some(n)) => if n == 0 {
            r == Ok::<Step, std::io::Error>(Step::Closed) && post == pre
        } else {
            chunk_to_viewer(pre, scratch.take(n as int), r, post)
        },
        Ok(None) => match r {
            Ok(step) => {
                &&& step == Step::Drained
                &&& post == (ServerView {
                    screen: pre.screen.flushed(),
                    stream: pre.stream.flushed(),
                    ..pre
                })
            },
            Err(e) => {
                ||| post == (ServerView { screen: pre.screen.flushed(), ..pre })
                ||| {
                    &&& !is_would_block(e)
                    &&& post == (ServerView {
                        screen: pre.screen.flushed(),
                        stream: pre.stream.flushed(),
                        ..pre
                    })
                }
            },
        },
        Err(e) => r == Err::<Step, std::io::Error>(e) && post == pre,
    }
}

/// The serving side of a session. It owns the connection `S`, the
/// pseudo-terminal `P` and the local terminal `O`, and keeps for each the
/// record of what it was given.
pub struct Server<S, P, O> {
    stream: PatientWriter<S>,
    master: PatientWriter<P>,
    screen: Screen<O>,
}

impl<S, P, O> View for Server<S, P, O> {
    type V = ServerView;

    closed spec fn view(&self) -> ServerView {
        ServerView { stream: self.stream@, master: self.master@, screen: self.screen@ }
    }
}

impl<S, P, O> Server<S, P, O> {
    /// The connection.
    pub closed spec fn stream(&self) -> S {
        self.stream.inner()
    }

    /// The pseudo-terminal.
    pub closed spec fn master(&self) -> P {
        self.master.inner()
    }
}

impl<S: Read + Write, P: Read + Write, O: Write> Server<S, P, O> {
    /// A session over a connection that gave the password, a pseudo-terminal
    /// and the local terminal. No byte has moved yet.
    pub fn new(admission: Admission, stream: S, master: P, out: O) -> (r: Self)
        ensures
            r@.stream == Ledger::fresh(),
            r@.master == Ledger::fresh(),
            r@.screen == ScreenView::fresh(),
            r@.mirrored(),
            r.stream() == stream,
            r.master() == master,
    {
        let server = Server {
            stream: PatientWriter::new(stream),
            master: PatientWriter::new(master),
            screen: Screen::new(out),
        };
        assert(server@.stream.accepted() =~= server@.screen.shown);
        server
    }

    /// The connection, for the poller.
    pub fn stream_ref(&self) -> (s: &S)
        ensures
            *s == self.stream(),
    {
        self.stream.deref()
    }

    /// The pseudo-terminal, for the poller.
    pub fn master_ref(&self) -> (p: &P)
        ensures
            *p == self.master(),
    {
        self.master.deref()
    }

    /// Serves a writable edge of the endpoint named by `token`. On the
    /// connection it hands the viewer's pending bytes to the connection, and
    /// flushes the connection if any moved. On the pseudo-terminal it does the
    /// same, and then as much for the shell's pending bytes and the
    /// pseudo-terminal. The keyboard has nothing to write to.
    pub fn writable(&mut self, token: Token) -> (r: Result<(), std::io::Error>)
        ensures
            writable_served(old(self)@, token, r, final(self)@),
            r is Ok ==> took_place(old(self)@, Happening::Quiet, final(self)@),
            r matches Err(e) ==> !is_would_block(e),
            old(self)@.mirrored() ==> final(self)@.mirrored(),
    {
        proof {
            lemma_stays(self@.stream);
            lemma_stays(self@.master);
        }
        match token {
            Token::Stdin => Ok(()),
            Token::Stream => self.stream.on_writable(),
            Token::Pty => {
                let first = self.stream.on_writable();
                match first {
                    Ok(_) => {
                        proof {
                            lemma_ended_well(first);
                        }
                    },
                    Err(e) => {
                        return Err(e);
                    },
                }
                self.master.on_writable()
            },
        }
    }

    /// Begins to serve an event: serves its writable edge, if it has one, and
    /// says what is left to do.
    pub fn attend(&mut self, event: Event) -> (r: Result<Task, std::io::Error>)
        ensures
            match r {
                Ok(task) => {
                    &&& task == event.task()
                    &&& if event.writable {
                        writable_served(old(self)@, event.token, Ok(()), final(self)@)
                    } else {
                        final(self)@ == old(self)@
                    }
                    &&& took_place(old(self)@, Happening::Quiet, final(self)@)
                },
                Err(e) => {
                    &&& event.writable
                    &&& !is_would_block(e)
                    &&& writable_served(old(self)@, event.token, Err(e), final(self)@)
                },
            },
            old(self)@.mirrored() ==> final(self)@.mirrored(),
    {
        proof {
            lemma_stays(self@.stream);
            lemma_stays(self@.master);
        }
        if event.writable {
            let served = self.writable(event.token);
            match served {
                Ok(_) => {
                    proof {
                        lemma_ended_well(served);
                    }
                },
                Err(e) => {
                    return Err(e);
                },
            }
        }
        match event.token {
            Token::Stdin => Ok(Task::TakePackets),
            _ => if event.readable {
                Ok(Task::Read)
            } else {
                Ok(Task::Nothing)
            },
        }
    }

    /// Decides what an answer of the connection to one read means, and acts
    /// on it. A chunk goes to the shell. No byte means that the viewer has
    /// left. "Would block" ends the edge: the shell's writer is flushed. Any
    /// other failure is returned.
    pub fn stream_answer(&mut self, scratch: &[u8], answer: Result<usize, std::io::Error>) -> (r:
        Result<Step, std::io::Error>)
        requires
            answer matches Ok(n) ==> n <= scratch@.len(),
        ensures
            stream_answered(old(self)@, scratch@, answer, r, final(self)@),
            r matches Ok(step) && step != Step::Again ==> took_place(
                old(self)@,
                Happening::Quiet,
                final(self)@,
            ),
            old(self)@.mirrored() ==> final(self)@.mirrored(),
    {
        match maybe(answer) {
            Ok(Some(n)) => {
                if n == 0 {
                    return Ok(Step::Closed);
                }
                let chunk = slice_subrange(scratch, 0, n);
                match self.master.submit(chunk) {
                    Ok(_) => Ok(Step::Again),
                    Err(e) => Err(e),
                }
            },
            Ok(None) => {
                match self.master.flush() {
                    Ok(_) => Ok(Step::Drained),
                    Err(e) => Err(e),
                }
            },
            Err(e) => Err(e),
        }
    }

    /// Decides what an answer of the pseudo-terminal to one read means, and
    /// acts on it. A chunk is shown on the local screen and then sent to the
    /// viewer. No byte means that the shell has gone. "Would block" ends the
    /// edge: the screen and the connection are flushed. Any other failure is
    /// returned.
    pub fn pty_answer(&mut self, scratch: &[u8], answer: Result<usize, std::io::Error>) -> (r:
        Result<Step, std::io::Error>)
        requires
            answer matches Ok(n) ==> n <= scratch@.len(),
        ensures
            pty_answered(old(self)@, scratch@, answer, r, final(self)@),
            r matches Ok(step) && step != Step::Again ==> took_place(
                old(self)@,
                Happening::Quiet,
                final(self)@,
            ),
            old(self)@.mirrored() && r is Ok ==> final(self)@.mirrored(),
    {
        match maybe(answer) {
            Ok(Some(n)) => {
                if n == 0 {
                    return Ok(Step::Closed);
                }
                let chunk = slice_subrange(scratch, 0, n);
                match self.screen.show(chunk) {
                    Ok(_) => {},
                    Err(e) => {
                        return Err(e);
                    },
                }
                match self.stream.submit(chunk) {
                    Ok(_) => Ok(Step::Again),
                    Err(e) => Err(e),
                }
            },
            Ok(None) => {
                match self.screen.flush() {
                    Ok(_) => {},
                    Err(e) => {
                        return Err(e);
                    },
                }
                match self.stream.flush() {
                    Ok(_) => Ok(Step::Drained),
                    Err(e) => Err(e),
                }
            },
            Err(e) => Err(e),
        }
    }

    /// Reads once from the endpoint named by `token` into `scratch` and acts
    /// on the answer: from the connection as `stream_answer` says, from the
    /// pseudo-terminal as `pty_answer` says. The keyboard is not read here:
    /// what is typed arrives as packets.
    pub fn readable(&mut self, token: Token, scratch: &mut [u8]) -> (r: Result<
        Step,
        std::io::Error,
    >)
        ensures
            final(scratch)@.len() == old(scratch)@.len(),
            match token {
                Token::Stream => exists|answer: Result<usize, std::io::Error>|
                    {
                        &&& answer matches Ok(n) ==> n <= final(scratch)@.len()
                        &&& #[trigger] stream_answered(
                            old(self)@,
                            final(scratch)@,
                            answer,
                            r,
                            final(self)@,
                        )
                    },
                Token::Stdin => r == Ok::<Step, std::io::Error>(Step::Drained) && final(self)@
                    == old(self)@,
                Token::Pty => exists|answer: Result<usize, std::io::Error>|
                    {
                        &&& answer matches Ok(n) ==> n <= final(scratch)@.len()
                        &&& #[trigger] pty_answered(
                            old(self)@,
                            final(scratch)@,
                            answer,
                            r,
                            final(self)@,
                        )
                    },
            },
            old(self)@.mirrored() && r is Ok ==> final(self)@.mirrored(),
    {
        match token {
            Token::Stream => {
                let answer = source_read(self.stream.deref_mut(), scratch);
                let ghost given = answer;
                let r = self.stream_answer(scratch, answer);
                assert(stream_answered(old(self)@, scratch@, given, r, self@));
                r
            },
            Token::Stdin => Ok(Step::Drained),
            Token::Pty => {
                let answer = source_read(self.master.deref_mut(), scratch);
                let ghost given = answer;
                let r = self.pty_answer(scratch, answer);
                assert(pty_answered(old(self)@, scratch@, given, r, self@));
                r
            },
        }
    }

    /// Takes the packets that wait in the keyboard's queue, oldest first,
    /// sends each to the shell behind everything sent to it before, and
    /// flushes the shell's writer.
    pub fn take_packets(&mut self, queue: &mut PacketQueue) -> (r: Result<(), std::io::Error>)
        ensures
            packets_taken(old(self)@, old(queue)@, r, final(queue)@, final(self)@),
            r is Ok ==> took_place(
                old(self)@,
                Happening::Typed(old(queue)@.flatten()),
                final(self)@,
            ),
            old(self)@.mirrored() ==> final(self)@.mirrored(),
    {
        self.master.take_packets(queue)
    }
}

/// The bytes that a run of happenings brings for the shell, in the order in
/// which they came.
pub open spec fn for_shell(run: Seq<Happening>) -> Seq<u8>
    decreases run.len(),
{
    if run.len() == 0 {
        Seq::empty()
    } else {
        for_shell(run.drop_last()) + (match run.last() {
            Happening::FromViewer(chunk) => chunk,
            Happening::Typed(packet) => packet,
            _ => Seq::empty(),
        })
    }
}

/// The bytes that the shell puts out in a run of happenings, in the order
/// in which they came.
pub open spec fn from_shell(run: Seq<Happening>) -> Seq<u8>
    decreases run.len(),
{
    if run.len() == 0 {
        Seq::empty()
    } else {
        from_shell(run.drop_last()) + (match run.last() {
            Happening::FromShell(chunk) => chunk,
            _ => Seq::empty(),
        })
    }
}

/// Bytes pass through the serving side unchanged. Take it from its first
/// state through any run of happenings. Then the shell has been given, or
/// will be given before anything else, exactly what the viewer and the
/// keyboard sent, in the order in which it came; and the viewer has been
/// given, or will be before anything else, exactly what the shell put out,
/// which is, byte for byte, what the local screen shows.
pub proof fn lemma_bytes_pass_unchanged(states: Seq<ServerView>, run: Seq<Happening>)
    requires
        states.len() == run.len() + 1,
        states[0].stream.accepted() == Seq::<u8>::empty(),
        states[0].master.accepted() == Seq::<u8>::empty(),
        states[0].screen.shown == Seq::<u8>::empty(),
        forall|i: int|
            0 <= i < run.len() ==> took_place(states[i], run[i], #[trigger] states[i + 1]),
    ensures
        states.last().master.accepted() == for_shell(run),
        states.last().master.delivered.is_prefix_of(for_shell(run)),
        states.last().stream.accepted() == from_shell(run),
        states.last().stream.delivered.is_prefix_of(from_shell(run)),
        states.last().screen.shown == from_shell(run),
    decreases run.len(),
{
    if run.len() > 0 {
        let earlier = states.drop_last();
        let before = run.drop_last();
        assert forall|i: int| 0 <= i < before.len() implies took_place(
            earlier[i],
            before[i],
            #[trigger] earlier[i + 1],
        ) by {
            assert(took_place(states[i], run[i], states[i + 1]));
        }
        lemma_bytes_pass_unchanged(earlier, before);
        let n: int = run.len() as int;
        assert(took_place(states[n - 1], run[n - 1], states[n - 1 + 1]));
        let pre = states[n - 1];
        let post = states[n];
        assert(pre == earlier.last());
        match run.last() {
            Happening::FromViewer(chunk) => {},
            Happening::Typed(packet) => {},
            Happening::FromShell(chunk) => {
                assert(post.master.accepted() + Seq::<u8>::empty() =~= post.master.accepted());
            },
            Happening::Quiet => {
                assert(post.screen.shown + Seq::<u8>::empty() =~= post.screen.shown);
            },
        }
        assert(for_shell(before) + Seq::<u8>::empty() =~= for_shell(before));
        assert(from_shell(before) + Seq::<u8>::empty() =~= from_shell(before));
    }
    let last = states.last();
    assert(last.master.delivered =~= last.master.accepted().subrange(
        0,
        last.master.delivered.len() as int,
    ));
    assert(last.stream.delivered =~= last.stream.accepted().subrange(
        0,
        last.stream.delivered.len() as int,
    ));
}

} // verus!
