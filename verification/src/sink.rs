//! The calls into `std::io` on which the rest of the library stands. Each
//! contract here is taken on trust from the documentation of `std`.

use std::io::{Read, Write};
use vstd::prelude::*;

verus! {

/// `std::io::Error`. It is carried from the call that failed to the caller;
/// nothing is read in it but, through `would_block`, its kind.
#[verifier::external_type_specification]
#[verifier::external_body]
pub struct ExIoError(std::io::Error);

/// Whether an I/O error only reports that the operation would have had to
/// wait.
pub uninterp spec fn is_would_block(e: std::io::Error) -> bool;

/// `std::io::Error::kind`, compared with `ErrorKind::WouldBlock`: the answer
/// is the one that [`is_would_block`] names for this error.
#[verifier::external_body]
pub(crate) fn would_block(e: &std::io::Error) -> (b: bool)
    ensures
        b == is_would_block(*e),
{
    e.kind() == std::io::ErrorKind::WouldBlock
}

/// What has passed between a sink and those who offered it bytes.
pub struct Record {
    /// Every offer made to the sink, oldest first.
    pub asked: Seq<Seq<u8>>,
    /// The sink's answer to each offer, in the same order.
    pub answered: Seq<Result<usize, std::io::Error>>,
    /// The bytes that the sink took, oldest first.
    pub taken: Seq<u8>,
}

impl Record {
    /// The record of a sink that was never asked.
    pub open spec fn fresh() -> Record {
        Record { asked: Seq::empty(), answered: Seq::empty(), taken: Seq::empty() }
    }

    /// The record after the sink was offered `bytes` and gave `answer`: a
    /// sink that says it took `n` bytes took the first `n` of those offered,
    /// and a sink that reports an error took none.
    pub open spec fn with(self, bytes: Seq<u8>, answer: Result<usize, std::io::Error>) -> Record {
        Record {
            asked: self.asked.push(bytes),
            answered: self.answered.push(answer),
            taken: self.taken + (match answer {
                Ok(n) => bytes.take(n as int),
                Err(_) => Seq::empty(),
            }),
        }
    }
}

/// A sink together with the record of what it was offered and what it
/// answered. Nothing but `sink_write` adds to the record.
pub struct Sink<W> {
    inner: W,
    record: Ghost<Record>,
}

impl<W> Sink<W> {
    /// The sink itself.
    pub closed spec fn inner(&self) -> W {
        self.inner
    }

    /// What has passed between the sink and this library.
    pub closed spec fn record(&self) -> Record {
        self.record@
    }

    /// Puts a sink under record. It has not been asked yet.
    pub(crate) fn new(inner: W) -> (sink: Self)
        ensures
            sink.inner() == inner,
            sink.record() == Record::fresh(),
    {
        Sink { inner, record: Ghost(Record::fresh()) }
    }

    /// The sink itself, for what does not write to it.
    pub(crate) fn get_ref(&self) -> (w: &W)
        ensures
            *w == self.inner(),
    {
        &self.inner
    }

    /// The sink itself. What is written to it directly is not on record.
    pub(crate) fn get_mut(&mut self) -> (w: &mut W)
        ensures
            *w == old(self).inner(),
            final(self).inner() == *final(w),
            final(self).record() == old(self).record(),
    {
        &mut self.inner
    }
}

/// `std::io::Write::write`. A sink that reports success reports how many of
/// the offered bytes it took, never more than were offered, and these are
/// the first of them; a sink that reports an error took none. The offer and
/// the answer go on the sink's record.
#[verifier::external_body]
pub(crate) fn sink_write<W: Write>(sink: &mut Sink<W>, bytes: &[u8]) -> (r: Result<
    usize,
    std::io::Error,
>)
    ensures
        r matches Ok(n) ==> n <= bytes@.len(),
        final(sink).record() == old(sink).record().with(bytes@, r),
{
    sink.inner.write(bytes)
}

/// `std::io::Write::write_all`. It comes back with `Ok` only when the whole
/// buffer has been written. Nothing is known of which outcome occurs.
#[verifier::external_body]
pub(crate) fn sink_write_all<W: Write>(sink: &mut W, bytes: &[u8]) -> (r: Result<
    (),
    std::io::Error,
>)
{
    sink.write_all(bytes)
}

/// `std::io::Write::flush`. Nothing is known of the outcome.
#[verifier::external_body]
pub(crate) fn sink_flush<W: Write>(sink: &mut W) -> (r: Result<(), std::io::Error>)
{
    sink.flush()
}

/// `std::io::Read::read`. A source that reports success reports how many
/// bytes it put at the front of the buffer, and never more than the buffer
/// holds; the buffer keeps its length.
#[verifier::external_body]
pub(crate) fn source_read<R: Read>(source: &mut R, buf: &mut [u8]) -> (r: Result<
    usize,
    std::io::Error,
>)
    ensures
        final(buf)@.len() == old(buf)@.len(),
        r matches Ok(n) ==> n <= old(buf)@.len(),
{
    source.read(buf)
}

} // verus!
