//! The local terminal's output: every chunk is written in full before the
//! next one is looked at.

use std::io::Write;
use vstd::prelude::*;
use crate::sink::{sink_flush, sink_write_all};

verus! {

/// What a terminal has been given.
pub struct ScreenView {
    /// The bytes of every chunk that the terminal has written in full, oldest
    /// first.
    pub shown: Seq<u8>,
    /// How many times the terminal was asked to flush.
    pub flushes: nat,
}

impl ScreenView {
    /// The record of a terminal that has not been used.
    pub open spec fn fresh() -> ScreenView {
        ScreenView { shown: Seq::empty(), flushes: 0 }
    }

    /// The record after one more chunk.
    pub open spec fn showing(self, bytes: Seq<u8>) -> ScreenView {
        ScreenView { shown: self.shown + bytes, ..self }
    }

    /// The record after one more flush.
    pub open spec fn flushed(self) -> ScreenView {
        ScreenView { flushes: self.flushes + 1, ..self }
    }
}

/// A terminal's output together with a record of what it has been given.
pub struct Screen<O> {
    out: O,
    shown: Ghost<Seq<u8>>,
    flushed: Ghost<nat>,
}

impl<O> View for Screen<O> {
    type V = ScreenView;

    closed spec fn view(&self) -> ScreenView {
        ScreenView { shown: self.shown@, flushes: self.flushed@ }
    }
}

impl<O> Screen<O> {
    /// The terminal's output.
    pub closed spec fn terminal(&self) -> O {
        self.out
    }
}

impl<O: Write> Screen<O> {
    /// Wraps a terminal's output. Nothing is shown yet.
    pub fn new(out: O) -> (r: Self)
        ensures
            r@ == ScreenView::fresh(),
            r.terminal() == out,
    {
        Screen { out, shown: Ghost(Seq::empty()), flushed: Ghost(0) }
    }

    /// Records what came of writing `bytes` to the terminal and hands the
    /// outcome on: a chunk written in full counts as shown, one on which the
    /// terminal failed does not.
    fn settle(&mut self, bytes: &[u8], outcome: Result<(), std::io::Error>) -> (r: Result<
        (),
        std::io::Error,
    >)
        ensures
            r == outcome,
            final(self)@ == (match outcome {
                Ok(_) => old(self)@.showing(bytes@),
                Err(_) => old(self)@,
            }),
    {
        match outcome {
            Ok(done) => {
                proof {
                    self.shown@ = self.shown@ + bytes@;
                }
                Ok(done)
            },
            Err(e) => Err(e),
        }
    }

    /// Writes all of `bytes` to the terminal. Where the terminal fails, the
    /// failure is returned and the chunk does not count as shown.
    pub fn show(&mut self, bytes: &[u8]) -> (r: Result<(), std::io::Error>)
        ensures
            match r {
                Ok(_) => final(self)@ == old(self)@.showing(bytes@),
                Err(_) => final(self)@ == old(self)@,
            },
    {
        let outcome = sink_write_all(&mut self.out, bytes);
        self.settle(bytes, outcome)
    }

    /// Flushes the terminal.
    pub fn flush(&mut self) -> (r: Result<(), std::io::Error>)
        ensures
            final(self)@ == old(self)@.flushed(),
    {
        proof {
            self.flushed@ = self.flushed@ + 1;
        }
        sink_flush(&mut self.out)
    }
}

} // verus!
