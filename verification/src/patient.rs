//! A writer that takes every byte it is given and hands the bytes on to a
//! sink that may refuse them for a while.

use std::io::Write;
use std::ops::{Deref, DerefMut};
use vstd::prelude::*;
use vstd::seq_lib::lemma_flatten_concat;
use crate::sink::{is_would_block, sink_flush, sink_write, Record, Sink};
use crate::stdin::PacketQueue;
use crate::{maybe, spec_maybe};

verus! {

/// What a writer has done with the bytes given to it.
pub struct Ledger {
    /// Bytes the sink has taken, oldest first.
    pub delivered: Seq<u8>,
    /// Bytes waiting for the sink, oldest first.
    pub pending: Seq<u8>,
    /// Whether the sink refused the latest offer made to it: it said "would
    /// block", or took no byte.
    pub blocked: bool,
    /// How many times the sink was asked to flush.
    pub flushes: nat,
}

impl Ledger {
    /// Every byte taken from callers so far, in the order given.
    pub open spec fn accepted(self) -> Seq<u8> {
        self.delivered + self.pending
    }

    /// The ledger of a writer that has not been used.
    pub open spec fn fresh() -> Ledger {
        Ledger { delivered: Seq::empty(), pending: Seq::empty(), blocked: false, flushes: 0 }
    }

    /// The ledger after one more flush of the sink.
    pub open spec fn flushed(self) -> Ledger {
        Ledger { flushes: self.flushes + 1, ..self }
    }

    /// The ledger after `bytes` were put behind what is pending.
    pub open spec fn taking(self, bytes: Seq<u8>) -> Ledger {
        Ledger { pending: self.pending + bytes, ..self }
    }

    /// The ledger after what is pending was dropped.
    pub open spec fn dropping(self) -> Ledger {
        Ledger { pending: Seq::empty(), ..self }
    }
}

/// How a ledger may change when a writer takes in `taken`: the sink has seen
/// more of the same bytes, and the new bytes stand behind all earlier ones.
pub open spec fn carries_on(pre: Ledger, taken: Seq<u8>, post: Ledger) -> bool {
    &&& pre.delivered.is_prefix_of(post.delivered)
    &&& post.accepted() == pre.accepted() + taken
}

/// Whether the sink took any byte between two states of a ledger.
pub open spec fn moved(pre: Ledger, post: Ledger) -> bool {
    post.delivered.len() > pre.delivered.len()
}

/// How a ledger may change when a write of `buf` fails: the part of `buf`
/// that reached the sink before the failure counts as taken, the rest is
/// dropped, and nothing of `buf` reached the sink while older bytes waited.
pub open spec fn cut_short(pre: Ledger, buf: Seq<u8>, post: Ledger) -> bool {
    let k = post.accepted().len() - pre.accepted().len();
    &&& 0 <= k <= buf.len()
    &&& carries_on(pre, buf.take(k), post)
    &&& k > 0 ==> post.pending.len() == 0
}

/// How a ledger may change when a writer hands pending bytes to the sink and
/// reports `progress`: no byte is taken in, `progress` says whether the sink
/// took any, bytes are left pending only if the sink refused an offer, and
/// the sink is not flushed.
pub open spec fn drained(pre: Ledger, progress: bool, post: Ledger) -> bool {
    &&& carries_on(pre, Seq::empty(), post)
    &&& progress == moved(pre, post)
    &&& post.pending.len() == 0 || post.blocked
    &&& post.flushes == pre.flushes
}

/// How a ledger may change on a writable edge that was served without
/// failure: pending bytes were handed to the sink as in a drain, and the sink
/// was flushed if and only if it took any.
pub open spec fn caught_up(pre: Ledger, post: Ledger) -> bool {
    &&& carries_on(pre, Seq::empty(), post)
    &&& post.pending.len() == 0 || post.blocked
    &&& post.flushes == pre.flushes + (if moved(pre, post) {
        1nat
    } else {
        0nat
    })
}

/// How a ledger may change on a writable edge. Without pending bytes
/// nothing is done. Where the edge is served without failure the writer has
/// caught up. Where it fails, either the drain failed and the sink was not
/// flushed, or the flush failed after the writer had caught up.
pub open spec fn edge_served(pre: Ledger, r: Result<(), std::io::Error>, post: Ledger) -> bool {
    &&& pre.pending.len() == 0 ==> r is Ok && post == pre
    &&& match r {
        Ok(_) => caught_up(pre, post),
        Err(e) => {
            &&& !is_would_block(e)
            &&& carries_on(pre, Seq::empty(), post)
            &&& post.flushes == pre.flushes && post.pending.len() > 0 || caught_up(pre, post)
        },
    }
}

/// Whether in `answer` the sink took some bytes.
pub open spec fn took_some(answer: Result<usize, std::io::Error>) -> bool {
    answer matches Ok(n) && n > 0
}

/// Whether in `answer` the sink failed, and not only by "would block".
pub open spec fn is_failure(answer: Result<usize, std::io::Error>) -> bool {
    answer matches Err(e) && !is_would_block(e)
}

/// Whether `answer` can be the sink's answer to an offer of all that is
/// pending: something is pending, and the sink took no more than that.
pub open spec fn offer_fits(pre: Ledger, answer: Result<usize, std::io::Error>) -> bool {
    &&& pre.pending.len() > 0
    &&& answer matches Ok(n) ==> n <= pre.pending.len()
}

/// The ledger after the sink gave `answer` to an offer of all that is
/// pending. Bytes that the sink took go from pending to delivered. A sink
/// that took none, or said "would block", has refused and the ledger says so.
/// Any other failure leaves the bytes where they are.
pub open spec fn settled(pre: Ledger, answer: Result<usize, std::io::Error>) -> Ledger {
    match spec_maybe(answer) {
        Ok(Some(n)) => if n > 0 {
            Ledger {
                delivered: pre.delivered + pre.pending.take(n as int),
                pending: pre.pending.skip(n as int),
                blocked: false,
                flushes: pre.flushes,
            }
        } else {
            Ledger { blocked: true, ..pre }
        },
        Ok(None) => Ledger { blocked: true, ..pre },
        Err(_) => Ledger { blocked: false, ..pre },
    }
}

/// Whether the sink is to be offered more after it gave `answer` to an
/// offer of all that is pending: yes where it took some bytes and not all,
/// no where it took all or refused; a failure other than "would block" is
/// handed on.
pub open spec fn going_on(pre: Ledger, answer: Result<usize, std::io::Error>) -> Result<
    bool,
    std::io::Error,
> {
    match spec_maybe(answer) {
        Ok(Some(n)) => Ok(0 < n < pre.pending.len()),
        Ok(None) => Ok(false),
        Err(e) => Err(e),
    }
}

/// What one answer of the sink makes of a ledger, and whether the sink is
/// to be offered more.
pub open spec fn offer_settled(
    pre: Ledger,
    answer: Result<usize, std::io::Error>,
    post: Ledger,
    go_on: Result<bool, std::io::Error>,
) -> bool {
    &&& post == settled(pre, answer)
    &&& go_on == going_on(pre, answer)
}

/// The ledger after the sink gave `answers`, one after the other, each to
/// an offer of all that was pending then.
pub open spec fn after(pre: Ledger, answers: Seq<Result<usize, std::io::Error>>) -> Ledger
    decreases answers.len(),
{
    if answers.len() == 0 {
        pre
    } else {
        settled(after(pre, answers.drop_last()), answers.last())
    }
}

/// What the sink was offered when it gave `answers`, one after the other:
/// each time all that was pending then.
pub open spec fn offers_of(pre: Ledger, answers: Seq<Result<usize, std::io::Error>>) -> Seq<
    Seq<u8>,
>
    decreases answers.len(),
{
    if answers.len() == 0 {
        Seq::empty()
    } else {
        offers_of(pre, answers.drop_last()).push(after(pre, answers.drop_last()).pending)
    }
}

/// Whether `answers` can be the sink's answers to offers made one after the
/// other, each of which said that the sink is to be offered more.
pub open spec fn went_on(pre: Ledger, answers: Seq<Result<usize, std::io::Error>>) -> bool
    decreases answers.len(),
{
    answers.len() == 0 || {
        let before = after(pre, answers.drop_last());
        &&& went_on(pre, answers.drop_last())
        &&& offer_fits(before, answers.last())
        &&& going_on(before, answers.last()) == Ok::<bool, std::io::Error>(true)
    }
}

/// Whether `answers` are the sink's answers in one whole run of offers:
/// none where nothing is pending; else each but the last said to go on, and
/// the last said to stop.
pub open spec fn run_of(pre: Ledger, answers: Seq<Result<usize, std::io::Error>>) -> bool {
    if answers.len() == 0 {
        pre.pending.len() == 0
    } else {
        let before = after(pre, answers.drop_last());
        &&& went_on(pre, answers.drop_last())
        &&& offer_fits(before, answers.last())
        &&& going_on(before, answers.last()) != Ok::<bool, std::io::Error>(true)
    }
}

/// The failure on which a run of offers ended, if it ended on one.
pub open spec fn failure_of(pre: Ledger, answers: Seq<Result<usize, std::io::Error>>) -> Option<
    std::io::Error,
> {
    if answers.len() == 0 {
        None
    } else {
        match going_on(after(pre, answers.drop_last()), answers.last()) {
            Ok(_) => None,
            Err(e) => Some(e),
        }
    }
}

/// What a run of offers with the sink's `answers` makes of a ledger, and how
/// it ends: with the failure that the sink gave last, or well.
pub open spec fn offers_ran(
    pre: Ledger,
    answers: Seq<Result<usize, std::io::Error>>,
    post: Ledger,
    r: Result<(), std::io::Error>,
) -> bool {
    &&& run_of(pre, answers)
    &&& post == after(pre, answers)
    &&& match failure_of(pre, answers) {
        Some(e) => r == Err::<(), std::io::Error>(e),
        None => r is Ok,
    }
}

/// What a drain with the sink's `answers` makes of a ledger and what it
/// returns: the failure that the sink gave last, or whether any byte moved.
pub open spec fn drain_ran(
    pre: Ledger,
    answers: Seq<Result<usize, std::io::Error>>,
    post: Ledger,
    r: Result<bool, std::io::Error>,
) -> bool {
    &&& run_of(pre, answers)
    &&& post == after(pre, answers)
    &&& match failure_of(pre, answers) {
        Some(e) => r == Err::<bool, std::io::Error>(e),
        None => r == Ok::<bool, std::io::Error>(moved(pre, post)),
    }
}

/// Whether `r` is the count `len`.
pub open spec fn is_count(r: Result<usize, std::io::Error>, len: nat) -> bool {
    r matches Ok(n) && n == len
}

/// What a write of `buf` makes of a ledger and what it returns, where the
/// sink gave `drain` while pending bytes were offered and `direct` while
/// `buf` was. Pending bytes are offered first; a failure there is returned
/// and `buf` is not taken in. Then `buf` is put behind what is pending. If
/// anything stood before it, the sink is not asked again. Else `buf` is
/// offered; a failure there is returned and what the sink did not take of
/// `buf` is dropped. In all other cases the length of `buf` is returned.
pub open spec fn write_ran(
    pre: Ledger,
    buf: Seq<u8>,
    drain: Seq<Result<usize, std::io::Error>>,
    direct: Seq<Result<usize, std::io::Error>>,
    post: Ledger,
    r: Result<usize, std::io::Error>,
) -> bool {
    let mid = after(pre, drain);
    let queued = mid.taking(buf);
    &&& run_of(pre, drain)
    &&& match failure_of(pre, drain) {
        Some(e) => direct.len() == 0 && post == mid && r == Err::<usize, std::io::Error>(e),
        None => if mid.pending.len() > 0 {
            &&& direct.len() == 0
            &&& post == queued
            &&& is_count(r, buf.len())
        } else {
            &&& run_of(queued, direct)
            &&& match failure_of(queued, direct) {
                Some(e) => post == after(queued, direct).dropping() && r == Err::<
                    usize,
                    std::io::Error,
                >(e),
                None => post == after(queued, direct) && is_count(r, buf.len()),
            }
        },
    }
}

/// Whether a write that returns `n` and a call that returns `r` end alike:
/// both well, or both with the same failure.
pub open spec fn same_end(n: Result<usize, std::io::Error>, r: Result<(), std::io::Error>) -> bool {
    match n {
        Ok(_) => r is Ok,
        Err(e) => r == Err::<(), std::io::Error>(e),
    }
}

/// What the taking in of `buf` makes of a ledger and how it ends: nothing
/// where `buf` is empty; else what a write of `buf` makes of it, for some
/// answers of the sink.
pub open spec fn submit_ran(
    pre: Ledger,
    buf: Seq<u8>,
    post: Ledger,
    r: Result<(), std::io::Error>,
) -> bool {
    if buf.len() == 0 {
        r is Ok && post == pre
    } else {
        exists|
            drain: Seq<Result<usize, std::io::Error>>,
            direct: Seq<Result<usize, std::io::Error>>,
            n: Result<usize, std::io::Error>,
        | #[trigger] write_ran(pre, buf, drain, direct, post, n) && same_end(n, r)
    }
}

/// What the serving of a writable edge makes of a ledger and how it ends,
/// for some answers of the sink.
pub open spec fn edge_ran_on(pre: Ledger, post: Ledger, r: Result<(), std::io::Error>) -> bool {
    exists|answers: Seq<Result<usize, std::io::Error>>| #[trigger] edge_ran(pre, answers, post, r)
}

/// What the sink is offered during a write of `buf` in which it gives
/// `drain` and `direct`: first, time and again, what is pending, then what
/// is pending with `buf` behind it.
pub open spec fn write_offers(
    pre: Ledger,
    buf: Seq<u8>,
    drain: Seq<Result<usize, std::io::Error>>,
    direct: Seq<Result<usize, std::io::Error>>,
) -> Seq<Seq<u8>> {
    offers_of(pre, drain) + offers_of(after(pre, drain).taking(buf), direct)
}

/// What the serving of a writable edge makes of a ledger, where the sink
/// gave `answers` to the offers: a drain, and one flush of the sink if any
/// byte moved. It fails where the drain fails, with the sink's failure, and
/// where the flush fails.
pub open spec fn edge_ran(
    pre: Ledger,
    answers: Seq<Result<usize, std::io::Error>>,
    post: Ledger,
    r: Result<(), std::io::Error>,
) -> bool {
    let mid = after(pre, answers);
    &&& run_of(pre, answers)
    &&& match failure_of(pre, answers) {
        Some(e) => post == mid && r == Err::<(), std::io::Error>(e),
        None => if moved(pre, mid) {
            post == mid.flushed()
        } else {
            post == mid && r is Ok
        },
    }
}

/// How a ledger may change when a writer takes the packets `waiting` in a
/// queue and leaves `left` there. Where all goes well no packet is left, the
/// bytes of all of them are taken in, in their order, and the sink is
/// flushed once. Where the sink fails, the packets taken are gone from the
/// queue, and of their bytes some are taken in, from the first on without a
/// gap.
pub open spec fn packets_taken(
    pre: Ledger,
    waiting: Seq<Seq<u8>>,
    r: Result<(), std::io::Error>,
    left: Seq<Seq<u8>>,
    post: Ledger,
) -> bool {
    match r {
        Ok(_) => {
            &&& left.len() == 0
            &&& carries_on(pre, waiting.flatten(), post)
            &&& post.flushes == pre.flushes + 1
        },
        Err(e) => {
            &&& !is_would_block(e)
            &&& exists|j: int| 0 <= j <= waiting.len() && left == #[trigger] waiting.skip(j)
            &&& exists|k: int|
                0 <= k <= waiting.flatten().len() && carries_on(
                    pre,
                    #[trigger] waiting.flatten().take(k),
                    post,
                )
        },
    }
}

/// A writer in front of a sink that may say "would block". It takes every
/// byte at once, keeps what the sink does not take, and hands it on later,
/// in the order in which it was given.
pub struct PatientWriter<W> {
    todo: Vec<u8>,
    writer: Sink<W>,
    sent: Ghost<Seq<u8>>,
    refused: Ghost<bool>,
    flushed: Ghost<nat>,
}

impl<W> View for PatientWriter<W> {
    type V = Ledger;

    closed spec fn view(&self) -> Ledger {
        Ledger {
            delivered: self.sent@,
            pending: self.todo@,
            blocked: self.refused@,
            flushes: self.flushed@,
        }
    }
}

impl<W> PatientWriter<W> {
    /// The sink.
    pub closed spec fn inner(&self) -> W {
        self.writer.inner()
    }

    /// What has passed between the sink and this writer, as the calls of the
    /// sink themselves have put it on record.
    pub closed spec fn record(&self) -> Record {
        self.writer.record()
    }

    /// The bytes that the sink took of what this writer offered it.
    pub open spec fn taken(&self) -> Seq<u8> {
        self.record().taken
    }

    /// Whether, from `self` to `later`, the sink took just the bytes by
    /// which the ledger's delivered bytes grew.
    pub open spec fn in_step(&self, later: &Self) -> bool {
        later.taken() == self.taken() + later@.delivered.skip(self@.delivered.len() as int)
    }

    /// Whether, from `self` to `later`, the sink was asked just `offers`,
    /// gave just `answers`, and took just the bytes by which the ledger's
    /// delivered bytes grew.
    pub open spec fn on_record(
        &self,
        later: &Self,
        offers: Seq<Seq<u8>>,
        answers: Seq<Result<usize, std::io::Error>>,
    ) -> bool {
        &&& later.record().asked == self.record().asked + offers
        &&& later.record().answered == self.record().answered + answers
        &&& self.in_step(later)
    }

    /// Whether, from `self` to `later`, the sink was not asked.
    pub open spec fn not_asked(&self, later: &Self) -> bool {
        later.record() == self.record() && later.inner() == self.inner()
    }
}

impl<W: Write> PatientWriter<W> {
    /// Wraps a sink. Nothing is written yet.
    pub fn new(writer: W) -> (r: Self)
        ensures
            r@ == Ledger::fresh(),
            r.inner() == writer,
            r.record() == Record::fresh(),
    {
        PatientWriter {
            todo: Vec::with_capacity(1024),
            writer: Sink::new(writer),
            sent: Ghost(Seq::empty()),
            refused: Ghost(false),
            flushed: Ghost(0),
        }
    }

    /// Enters in the ledger the answer that the sink gave to an offer of all
    /// that is pending, and says whether the sink is to be offered more. The
    /// sink itself is not asked here.
    pub fn settle_offer(&mut self, answer: Result<usize, std::io::Error>) -> (go_on: Result<
        bool,
        std::io::Error,
    >)
        requires
            offer_fits(old(self)@, answer),
        ensures
            offer_settled(old(self)@, answer, final(self)@, go_on),
            old(self).not_asked(final(self)),
    {
        match maybe(answer) {
            Ok(Some(n)) => {
                if n == 0 {
                    proof {
                        self.refused@ = true;
                    }
                    Ok(false)
                } else {
                    let rest = self.todo.split_off(n);
                    proof {
                        self.sent@ = self.sent@ + self.todo@;
                        self.refused@ = false;
                    }
                    self.todo = rest;
                    assert(self@.pending =~= old(self)@.pending.skip(n as int));
                    assert(self@.delivered =~= old(self)@.delivered + old(self)@.pending.take(
                        n as int,
                    ));
                    Ok(self.todo.len() > 0)
                }
            },
            Ok(None) => {
                proof {
                    self.refused@ = true;
                }
                Ok(false)
            },
            Err(e) => {
                proof {
                    self.refused@ = false;
                }
                Err(e)
            },
        }
    }

    /// Offers the sink all that is pending, and again what it has not taken,
    /// until nothing is pending or the sink refuses or fails.
    fn run_offers(&mut self) -> (r: Result<(), std::io::Error>)
        ensures
            exists|answers: Seq<Result<usize, std::io::Error>>|
                {
                    &&& #[trigger] offers_ran(old(self)@, answers, final(self)@, r)
                    &&& old(self).on_record(final(self), offers_of(old(self)@, answers), answers)
                },
            old(self)@.pending.len() == 0 ==> old(self).not_asked(final(self)),
            old(self)@.pending.len() == 0 ==> final(self)@ == old(self)@,
            carries_on(old(self)@, Seq::empty(), final(self)@),
            final(self)@.flushes == old(self)@.flushes,
            match r {
                Ok(_) => final(self)@.pending.len() == 0 || final(self)@.blocked,
                Err(e) => !is_would_block(e) && final(self)@.pending.len() > 0,
            },
    {
        let ghost mut answers: Seq<Result<usize, std::io::Error>> = Seq::empty();
        let mut r: Result<(), std::io::Error> = Ok(());
        proof {
            lemma_stays(self@);
            lemma_not_asked(self);
        }
        while self.todo.len() > 0
            invariant_except_break
                went_on(old(self)@, answers),
                self@ == after(old(self)@, answers),
                r is Ok,
            invariant
                old(self).on_record(self, offers_of(old(self)@, answers), answers),
                carries_on(old(self)@, Seq::empty(), self@),
                self@.flushes == old(self)@.flushes,
                answers.len() == 0 ==> self@ == old(self)@ && old(self).not_asked(self),
                old(self)@.pending.len() == 0 ==> answers.len() == 0,
            ensures
                offers_ran(old(self)@, answers, self@, r),
                match r {
                    Ok(_) => self@.pending.len() == 0 || self@.blocked,
                    Err(e) => !is_would_block(e) && self@.pending.len() > 0,
                },
            decreases self@.pending.len(),
        {
            let ghost before = self@;
            let ghost taken_before = self.taken();
            let answer = sink_write(&mut self.writer, self.todo.as_slice());
            let ghost given = answer;
            let go_on = self.settle_offer(answer);
            proof {
                lemma_settled_in_order(before, given);
                lemma_carries_on_twice(
                    old(self)@,
                    Seq::empty(),
                    before,
                    Seq::empty(),
                    self@,
                );
                assert(Seq::<u8>::empty() + Seq::<u8>::empty() =~= Seq::<u8>::empty());
                let grown = self@.delivered.skip(before.delivered.len() as int);
                assert(grown =~= (match given {
                    Ok(n) => before.pending.take(n as int),
                    Err(_) => Seq::<u8>::empty(),
                }));
                assert(self.taken() =~= taken_before + grown);
                lemma_in_step_twice(
                    old(self).taken(),
                    old(self)@.delivered,
                    taken_before,
                    before.delivered,
                    self.taken(),
                    self@.delivered,
                );
                let longer = answers.push(given);
                assert(longer.drop_last() =~= answers);
                assert(longer.last() == given);
                assert(offers_of(old(self)@, longer) == offers_of(old(self)@, answers).push(
                    before.pending,
                ));
                assert(self.record().asked =~= old(self).record().asked + offers_of(
                    old(self)@,
                    longer,
                ));
                assert(self.record().answered =~= old(self).record().answered + longer);
                answers = longer;
            }
            match go_on {
                Ok(more) => {
                    if !more {
                        break;
                    }
                },
                Err(e) => {
                    r = Err(e);
                    break;
                },
            }
        }
        r
    }

    /// Hands pending bytes to the sink until none is left or the sink stops
    /// taking them, and says whether any byte moved. A sink that would block
    /// is no error; any other failure of the sink is returned, and what the
    /// sink took before it failed is no longer pending.
    pub fn write_todo(&mut self) -> (r: Result<bool, std::io::Error>)
        ensures
            exists|answers: Seq<Result<usize, std::io::Error>>|
                {
                    &&& #[trigger] drain_ran(old(self)@, answers, final(self)@, r)
                    &&& old(self).on_record(final(self), offers_of(old(self)@, answers), answers)
                },
            old(self)@.pending.len() == 0 ==> old(self).not_asked(final(self)),
            carries_on(old(self)@, Seq::empty(), final(self)@),
            final(self)@.flushes == old(self)@.flushes,
            old(self)@.pending.len() == 0 ==> r == Ok::<bool, std::io::Error>(false),
            old(self)@.pending.len() == 0 ==> final(self)@ == old(self)@,
            match r {
                Ok(progress) => drained(old(self)@, progress, final(self)@),
                Err(e) => !is_would_block(e) && final(self)@.pending.len() > 0,
            },
    {
        let before: usize = self.todo.len();
        let ran = self.run_offers();
        let ghost answers = choose|answers: Seq<Result<usize, std::io::Error>>|
            {
                &&& #[trigger] offers_ran(old(self)@, answers, self@, ran)
                &&& old(self).on_record(self, offers_of(old(self)@, answers), answers)
            };
        match ran {
            Ok(_) => {
                let progress = self.todo.len() < before;
                proof {
                    assert(self@.accepted().len() == old(self)@.accepted().len());
                    assert(drain_ran(
                        old(self)@,
                        answers,
                        self@,
                        Ok::<bool, std::io::Error>(progress),
                    ));
                }
                Ok(progress)
            },
            Err(e) => {
                proof {
                    assert(drain_ran(old(self)@, answers, self@, Err::<bool, std::io::Error>(e)));
                }
                Err(e)
            },
        }
    }

    /// Takes all of `buf` as `write` does, but leaves the writer alone where
    /// `buf` is empty.
    pub fn submit(&mut self, buf: &[u8]) -> (r: Result<(), std::io::Error>)
        ensures
            buf@.len() == 0 ==> r is Ok && final(self)@ == old(self)@ && old(self).not_asked(
                final(self),
            ),
            buf@.len() > 0 ==> exists|
                drain: Seq<Result<usize, std::io::Error>>,
                direct: Seq<Result<usize, std::io::Error>>,
                n: Result<usize, std::io::Error>,
            |
                {
                    &&& #[trigger] write_ran(old(self)@, buf@, drain, direct, final(self)@, n)
                    &&& old(self).on_record(
                        final(self),
                        write_offers(old(self)@, buf@, drain, direct),
                        drain + direct,
                    )
                    &&& same_end(n, r)
                },
            submit_ran(old(self)@, buf@, final(self)@, r),
            old(self).in_step(final(self)),
            old(self)@.delivered.is_prefix_of(final(self)@.delivered),
            final(self)@.flushes == old(self)@.flushes,
            match r {
                Ok(_) => {
                    &&& carries_on(old(self)@, buf@, final(self)@)
                    &&& buf@.len() > 0 ==> final(self)@.pending.len() == 0 || final(self)@.blocked
                },
                Err(e) => !is_would_block(e) && cut_short(old(self)@, buf@, final(self)@),
            },
    {
        if buf.len() == 0 {
            proof {
                lemma_stays(self@);
                lemma_not_asked(self);
                assert(self@.accepted() + buf@ =~= self@.accepted());
            }
            return Ok(());
        }
        match self.write(buf) {
            Ok(_) => Ok(()),
            Err(e) => Err(e),
        }
    }

    /// Serves a writable edge of the sink: hands pending bytes to it, and
    /// flushes it if any byte moved. It fails where the drain fails, and
    /// where the flush fails.
    pub fn on_writable(&mut self) -> (r: Result<(), std::io::Error>)
        ensures
            exists|answers: Seq<Result<usize, std::io::Error>>|
                {
                    &&& #[trigger] edge_ran(old(self)@, answers, final(self)@, r)
                    &&& old(self).on_record(final(self), offers_of(old(self)@, answers), answers)
                },
            old(self)@.pending.len() == 0 ==> old(self).not_asked(final(self)),
            edge_ran_on(old(self)@, final(self)@, r),
            edge_served(old(self)@, r, final(self)@),
    {
        let drained = self.write_todo();
        let ghost answers = choose|answers: Seq<Result<usize, std::io::Error>>|
            {
                &&& #[trigger] drain_ran(old(self)@, answers, self@, drained)
                &&& old(self).on_record(self, offers_of(old(self)@, answers), answers)
            };
        let progress = match drained {
            Ok(progress) => progress,
            Err(e) => {
                proof {
                    assert(edge_ran(old(self)@, answers, self@, Err::<(), std::io::Error>(e)));
                }
                return Err(e);
            },
        };
        let ghost mid = self@;
        if progress {
            let r = self.flush();
            proof {
                assert(self@.accepted() =~= mid.accepted());
                assert(edge_ran(old(self)@, answers, self@, r));
            }
            r
        } else {
            let r: Result<(), std::io::Error> = Ok(());
            proof {
                assert(edge_ran(old(self)@, answers, self@, r));
            }
            r
        }
    }

    /// Takes the packets that wait in a queue, oldest first, takes in the
    /// bytes of each behind everything taken in before, and flushes the sink.
    pub fn take_packets(&mut self, queue: &mut PacketQueue) -> (r: Result<(), std::io::Error>)
        ensures
            packets_taken(old(self)@, old(queue)@, r, final(queue)@, final(self)@),
            old(self).in_step(final(self)),
    {
        let ghost waiting = queue@;
        let ghost mut done: int = 0;
        proof {
            lemma_stays(self@);
            assert(waiting.take(0).flatten() =~= Seq::<u8>::empty());
            assert(waiting.skip(0) =~= waiting);
            lemma_not_asked(self);
        }
        while queue.len() > 0
            invariant
                0 <= done <= waiting.len(),
                waiting == old(queue)@,
                queue@ == waiting.skip(done),
                self@.flushes == old(self)@.flushes,
                carries_on(old(self)@, waiting.take(done).flatten(), self@),
                old(self).in_step(self),
            decreases queue@.len(),
        {
            let packet = queue.try_recv().unwrap();
            let ghost before = self@;
            let ghost taken_before = self.taken();
            let r = self.submit(packet.as_slice());
            proof {
                let so_far = waiting.take(done).flatten();
                assert(packet@ == waiting[done]);
                assert(queue@ =~= waiting.skip(done + 1));
                assert(waiting.take(done + 1) =~= waiting.take(done).push(packet@));
                waiting.take(done).lemma_flatten_push(packet@);
                assert(waiting =~= waiting.take(done + 1) + waiting.skip(done + 1));
                lemma_flatten_concat(waiting.take(done + 1), waiting.skip(done + 1));
                lemma_in_step_twice(
                    old(self).taken(),
                    old(self)@.delivered,
                    taken_before,
                    before.delivered,
                    self.taken(),
                    self@.delivered,
                );
                if r is Ok {
                    lemma_carries_on_twice(old(self)@, so_far, before, packet@, self@);
                } else {
                    let k: int = self@.accepted().len() - before.accepted().len();
                    lemma_carries_on_twice(old(self)@, so_far, before, packet@.take(k), self@);
                    let reached: int = so_far.len() + k;
                    assert(so_far + packet@.take(k) =~= waiting.flatten().take(reached));
                    assert(0 <= reached <= waiting.flatten().len());
                    assert(carries_on(old(self)@, waiting.flatten().take(reached), self@));
                    assert(queue@ == waiting.skip(done + 1));
                }
                done = done + 1;
            }
            match r {
                Ok(_) => {},
                Err(e) => {
                    return Err(e);
                },
            }
        }
        proof {
            assert(waiting.take(done) =~= waiting);
            assert(waiting.flatten().take(waiting.flatten().len() as int) =~= waiting.flatten());
        }
        let ghost before = self@;
        let r = self.flush();
        proof {
            assert(self@.accepted() =~= before.accepted());
        }
        r
    }
}

impl<W: Write> Write for PatientWriter<W> {
    /// Takes all of `buf`. Pending bytes go to the sink first. Then `buf` is
    /// put behind what is pending, and if nothing stood before it, it is
    /// offered to the sink at once. The caller never has to come back with
    /// the same bytes: the count returned is the length of `buf`. A sink that
    /// would block is no error; any other failure of the sink is returned,
    /// and if it came while `buf` was offered, what the sink did not take of
    /// `buf` is dropped.
    fn write(&mut self, buf: &[u8]) -> (r: Result<usize, std::io::Error>)
        ensures
            exists|
                drain: Seq<Result<usize, std::io::Error>>,
                direct: Seq<Result<usize, std::io::Error>>,
            |
                {
                    &&& #[trigger] write_ran(old(self)@, buf@, drain, direct, final(self)@, r)
                    &&& old(self).on_record(
                        final(self),
                        write_offers(old(self)@, buf@, drain, direct),
                        drain + direct,
                    )
                },
            old(self).in_step(final(self)),
            old(self)@.pending.len() == 0 && buf@.len() == 0 ==> old(self).not_asked(final(self)),
            old(self)@.delivered.is_prefix_of(final(self)@.delivered),
            final(self)@.flushes == old(self)@.flushes,
            old(self)@.pending.len() == 0 && buf@.len() == 0 ==> r is Ok,
            old(self)@.pending.len() == 0 && buf@.len() == 0 ==> final(self)@ == old(self)@,
            match r {
                Ok(n) => {
                    &&& n == buf@.len()
                    &&& carries_on(old(self)@, buf@, final(self)@)
                    &&& final(self)@.pending.len() == 0 || final(self)@.blocked
                },
                Err(e) => !is_would_block(e) && cut_short(old(self)@, buf@, final(self)@),
            },
    {
        let ghost none: Seq<Result<usize, std::io::Error>> = Seq::empty();
        let first = self.run_offers();
        let ghost drain = choose|answers: Seq<Result<usize, std::io::Error>>|
            {
                &&& #[trigger] offers_ran(old(self)@, answers, self@, first)
                &&& old(self).on_record(self, offers_of(old(self)@, answers), answers)
            };
        proof {
            assert(offers_of(old(self)@, drain) + Seq::<Seq<u8>>::empty() =~= offers_of(
                old(self)@,
                drain,
            ));
            assert(drain + none =~= drain);
            assert(offers_of(self@.taking(buf@), none) =~= Seq::<Seq<u8>>::empty());
        }
        match first {
            Ok(_) => {},
            Err(e) => {
                proof {
                    assert(write_ran(
                        old(self)@,
                        buf@,
                        drain,
                        none,
                        self@,
                        Err::<usize, std::io::Error>(e),
                    ));
                    assert(buf@.take(0) =~= Seq::<u8>::empty());
                }
                return Err(e);
            },
        }
        let ghost mid = self@;
        let ghost taken_mid = self.taken();
        let stood = self.todo.len() > 0;
        self.todo.extend_from_slice(buf);
        let ghost queued = self@;
        proof {
            assert(queued.pending =~= mid.pending + buf@);
            assert(queued == mid.taking(buf@));
            assert(queued.accepted() =~= old(self)@.accepted() + buf@);
            assert(old(self)@.delivered =~= queued.delivered.subrange(
                0,
                old(self)@.delivered.len() as int,
            ));
        }
        if stood {
            proof {
                assert(write_ran(
                    old(self)@,
                    buf@,
                    drain,
                    none,
                    self@,
                    Ok::<usize, std::io::Error>(buf.len()),
                ));
            }
            return Ok(buf.len());
        }
        let ghost queued_writer = *self;
        let second = self.run_offers();
        let ghost direct = choose|answers: Seq<Result<usize, std::io::Error>>|
            {
                &&& #[trigger] offers_ran(queued, answers, self@, second)
                &&& queued_writer.on_record(self, offers_of(queued, answers), answers)
            };
        proof {
            assert(self.record().asked =~= old(self).record().asked + write_offers(
                old(self)@,
                buf@,
                drain,
                direct,
            ));
            assert(self.record().answered =~= old(self).record().answered + (drain + direct));
        }
        match second {
            Ok(_) => {
                proof {
                    assert(write_ran(
                        old(self)@,
                        buf@,
                        drain,
                        direct,
                        self@,
                        Ok::<usize, std::io::Error>(buf.len()),
                    ));
                    lemma_carries_on_twice(old(self)@, buf@, queued, Seq::empty(), self@);
                    assert(buf@ + Seq::<u8>::empty() =~= buf@);
                    lemma_in_step_twice(
                        old(self).taken(),
                        old(self)@.delivered,
                        taken_mid,
                        mid.delivered,
                        self.taken(),
                        self@.delivered,
                    );
                }
                Ok(buf.len())
            },
            Err(e) => {
                let ghost failed = self@;
                self.todo.clear();
                proof {
                    assert(self@ == failed.dropping());
                    assert(write_ran(
                        old(self)@,
                        buf@,
                        drain,
                        direct,
                        self@,
                        Err::<usize, std::io::Error>(e),
                    ));
                    lemma_in_step_twice(
                        old(self).taken(),
                        old(self)@.delivered,
                        taken_mid,
                        mid.delivered,
                        self.taken(),
                        self@.delivered,
                    );
                    // What the sink took of `buf` is the front of `buf`.
                    let k: int = self@.delivered.len() - mid.delivered.len();
                    assert(mid.pending =~= Seq::<u8>::empty());
                    assert(queued.accepted() =~= mid.delivered + buf@);
                    assert(failed.accepted() =~= mid.delivered + buf@);
                    lemma_front_of(mid.delivered, buf@, failed.delivered, failed.pending);
                    assert(self@.delivered =~= mid.delivered + buf@.take(k));
                    assert(self@.accepted() =~= old(self)@.accepted() + buf@.take(k));
                    assert(old(self)@.delivered =~= self@.delivered.subrange(
                        0,
                        old(self)@.delivered.len() as int,
                    ));
                }
                Err(e)
            },
        }
    }

    /// Flushes the sink. A sink that would block is no error: the caller
    /// comes back when the sink can be written again. Pending bytes stay
    /// pending.
    fn flush(&mut self) -> (r: Result<(), std::io::Error>)
        ensures
            final(self)@ == old(self)@.flushed(),
            final(self).record() == old(self).record(),
            r matches Err(e) ==> !is_would_block(e),
    {
        proof {
            self.flushed@ = self.flushed@ + 1;
        }
        match maybe(sink_flush(self.writer.get_mut())) {
            Ok(_) => Ok(()),
            Err(e) => Err(e),
        }
    }
}

impl<W> Deref for PatientWriter<W> {
    type Target = W;

    /// The sink, for what does not write to it.
    fn deref(&self) -> (w: &W)
        ensures
            *w == self.inner(),
    {
        self.writer.get_ref()
    }
}

impl<W> DerefMut for PatientWriter<W> {
    /// The sink, for settings of the descriptor behind it. Bytes written to
    /// it directly are outside the ledger and off the sink's record.
    fn deref_mut(&mut self) -> (w: &mut W)
        ensures
            *w == old(self).inner(),
            final(self).inner() == *final(w),
            final(self)@ == old(self)@,
            final(self).record() == old(self).record(),
    {
        self.writer.get_mut()
    }
}

/// A record that keeps step with a growing sequence over two stretches
/// keeps step with it over both together.
proof fn lemma_in_step_twice(
    taken: Seq<u8>,
    first: Seq<u8>,
    taken_then: Seq<u8>,
    second: Seq<u8>,
    taken_last: Seq<u8>,
    third: Seq<u8>,
)
    requires
        first.is_prefix_of(second),
        second.is_prefix_of(third),
        taken_then == taken + second.skip(first.len() as int),
        taken_last == taken_then + third.skip(second.len() as int),
    ensures
        taken_last == taken + third.skip(first.len() as int),
{
    assert(third.skip(first.len() as int) =~= second.skip(first.len() as int) + third.skip(
        second.len() as int,
    ));
    assert(taken_last =~= taken + third.skip(first.len() as int));
}

/// Where a sequence and a rest make up an earlier sequence and `whole`, and
/// the earlier one is the front of the later one, the later one ends with the
/// front of `whole` and the rest is what is left of `whole`.
proof fn lemma_front_of(earlier: Seq<u8>, whole: Seq<u8>, later: Seq<u8>, rest: Seq<u8>)
    requires
        earlier.is_prefix_of(later),
        later + rest == earlier + whole,
    ensures
        later == earlier + whole.take(later.len() - earlier.len()),
        rest == whole.skip(later.len() - earlier.len()),
{
    let k: int = later.len() - earlier.len();
    let one = later + rest;
    let other = earlier + whole;
    assert(one.len() == later.len() + rest.len());
    assert(other.len() == earlier.len() + whole.len());
    assert(0 <= k <= whole.len());
    assert forall|i: int| 0 <= i < k implies later[earlier.len() + i] == whole[i] by {
        assert(one[earlier.len() + i] == later[earlier.len() + i]);
        assert(other[earlier.len() + i] == whole[i]);
    }
    assert(later =~= earlier + whole.take(k));
    assert forall|i: int| 0 <= i < rest.len() implies rest[i] == whole[k + i] by {
        assert(one[later.len() + i] == rest[i]);
        assert(other[later.len() + i] == whole[k + i]);
    }
    assert(rest =~= whole.skip(k));
}

/// There is one way to end well.
pub proof fn lemma_ended_well(r: Result<(), std::io::Error>)
    requires
        r is Ok,
    ensures
        r == Ok::<(), std::io::Error>(()),
{
    let done: () = r->Ok_0;
    assert(done == ());
}

/// A writer that stays as it is has not asked its sink.
pub proof fn lemma_not_asked<W>(writer: &PatientWriter<W>)
    ensures
        writer.not_asked(writer),
        writer.in_step(writer),
        writer.on_record(writer, Seq::empty(), Seq::empty()),
{
    assert(writer@.delivered.skip(writer@.delivered.len() as int) =~= Seq::<u8>::empty());
    assert(writer.taken() + Seq::<u8>::empty() =~= writer.taken());
    assert(writer.record().asked + Seq::<Seq<u8>>::empty() =~= writer.record().asked);
    assert(writer.record().answered + Seq::<Result<usize, std::io::Error>>::empty()
        =~= writer.record().answered);
}

/// A ledger that stays as it is has taken in nothing.
pub proof fn lemma_stays(ledger: Ledger)
    ensures
        carries_on(ledger, Seq::empty(), ledger),
{
    assert(ledger.accepted() + Seq::<u8>::empty() =~= ledger.accepted());
    assert(ledger.delivered =~= ledger.delivered.subrange(0, ledger.delivered.len() as int));
}

/// One answer of the sink moves bytes from pending to delivered or leaves
/// them: none is lost, doubled or moved out of its place.
pub proof fn lemma_settled_in_order(pre: Ledger, answer: Result<usize, std::io::Error>)
    requires
        offer_fits(pre, answer),
    ensures
        carries_on(pre, Seq::empty(), settled(pre, answer)),
        settled(pre, answer).flushes == pre.flushes,
{
    let post = settled(pre, answer);
    assert(post.accepted() =~= pre.accepted() + Seq::<u8>::empty());
    assert(pre.delivered =~= post.delivered.subrange(0, pre.delivered.len() as int));
}

/// While the sink is offered more, it takes bytes. In answers each of which
/// said to go on, the sink took some bytes every time and not all, so there
/// are fewer answers than bytes were pending; and no byte is lost, doubled or
/// moved out of its place, and the sink is not flushed.
pub proof fn lemma_went_on(pre: Ledger, answers: Seq<Result<usize, std::io::Error>>)
    requires
        went_on(pre, answers),
    ensures
        carries_on(pre, Seq::empty(), after(pre, answers)),
        after(pre, answers).flushes == pre.flushes,
        forall|i: int| 0 <= i < answers.len() ==> took_some(#[trigger] answers[i]),
        after(pre, answers).pending.len() + answers.len() <= pre.pending.len(),
        answers.len() > 0 ==> after(pre, answers).pending.len() > 0,
    decreases answers.len(),
{
    if answers.len() == 0 {
        lemma_stays(pre);
    } else {
        let head = answers.drop_last();
        let before = after(pre, head);
        lemma_went_on(pre, head);
        lemma_settled_in_order(before, answers.last());
        lemma_carries_on_twice(pre, Seq::empty(), before, Seq::empty(), after(pre, answers));
        assert(Seq::<u8>::empty() + Seq::<u8>::empty() =~= Seq::<u8>::empty());
        assert forall|i: int| 0 <= i < answers.len() implies took_some(#[trigger] answers[i]) by {
            if i < head.len() {
                assert(head[i] == answers[i]);
            }
        }
    }
}

/// A run of offers keeps the order. Whatever the sink answers in a run, no
/// byte is taken in, lost, doubled or moved out of its place: the bytes
/// delivered, followed by the bytes pending, stay what they were, and the
/// bytes delivered only grow. The sink is not flushed.
pub proof fn lemma_run_keeps_order(pre: Ledger, answers: Seq<Result<usize, std::io::Error>>)
    requires
        run_of(pre, answers),
    ensures
        carries_on(pre, Seq::empty(), after(pre, answers)),
        after(pre, answers).flushes == pre.flushes,
{
    if answers.len() == 0 {
        lemma_stays(pre);
    } else {
        let head = answers.drop_last();
        let before = after(pre, head);
        lemma_went_on(pre, head);
        lemma_settled_in_order(before, answers.last());
        lemma_carries_on_twice(pre, Seq::empty(), before, Seq::empty(), after(pre, answers));
        assert(Seq::<u8>::empty() + Seq::<u8>::empty() =~= Seq::<u8>::empty());
    }
}

/// A run of offers ends, and it ends with nothing pending unless the sink
/// refuses or fails. The sink is asked at most once for each byte pending,
/// and not at all where none is. Only its last answer can be a refusal or a
/// failure: after one the sink is not asked again. Where the last answer
/// took bytes, nothing is left pending; where the sink was asked and bytes
/// are left pending after a run that did not fail, the last answer was a
/// refusal and the ledger says that the sink is blocked.
pub proof fn lemma_run_ends(pre: Ledger, answers: Seq<Result<usize, std::io::Error>>)
    requires
        run_of(pre, answers),
    ensures
        answers.len() <= pre.pending.len(),
        answers.len() == 0 <==> pre.pending.len() == 0,
        forall|i: int| 0 <= i < answers.len() - 1 ==> took_some(#[trigger] answers[i]),
        answers.len() > 0 && took_some(answers.last()) ==> after(pre, answers).pending.len() == 0,
        answers.len() > 0 && failure_of(pre, answers) is None ==> (after(
            pre,
            answers,
        ).pending.len() > 0 <==> after(pre, answers).blocked),
        answers.len() > 0 && after(pre, answers).blocked ==> !took_some(answers.last())
            && !is_failure(answers.last()),
{
    if answers.len() > 0 {
        let head = answers.drop_last();
        lemma_went_on(pre, head);
        assert forall|i: int| 0 <= i < answers.len() - 1 implies took_some(
            #[trigger] answers[i],
        ) by {
            assert(head[i] == answers[i]);
        }
    }
}

/// A run of offers fails if and only if the sink does, and with the sink's
/// failure. It ends on a failure just where the sink's last answer is one
/// that is not "would block", and that answer's error is the one handed on;
/// no earlier answer is a failure. Then bytes are still pending and the
/// ledger does not say that the sink is blocked.
pub proof fn lemma_run_fails_with_the_sink(
    pre: Ledger,
    answers: Seq<Result<usize, std::io::Error>>,
)
    requires
        run_of(pre, answers),
    ensures
        match failure_of(pre, answers) {
            Some(e) => {
                &&& answers.len() > 0
                &&& answers.last() == Err::<usize, std::io::Error>(e)
                &&& !is_would_block(e)
                &&& after(pre, answers).pending.len() > 0
                &&& !after(pre, answers).blocked
            },
            None => forall|i: int| 0 <= i < answers.len() ==> !is_failure(#[trigger] answers[i]),
        },
        forall|i: int| 0 <= i < answers.len() - 1 ==> !is_failure(#[trigger] answers[i]),
{
    if answers.len() > 0 {
        let head = answers.drop_last();
        lemma_went_on(pre, head);
        assert forall|i: int| 0 <= i < answers.len() - 1 implies !is_failure(
            #[trigger] answers[i],
        ) by {
            assert(head[i] == answers[i]);
            assert(took_some(head[i]));
        }
    }
}

/// A write takes all it is given unless the sink fails. A write returns the
/// length of the buffer if and only if none of the sink's answers during it
/// is a failure other than "would block", and then the whole buffer stands
/// behind all earlier bytes, delivered or pending. Else the write fails, with
/// the failure that the sink gave last, to the offers of pending bytes or to
/// those of the buffer.
pub proof fn lemma_write_takes_all(
    pre: Ledger,
    buf: Seq<u8>,
    drain: Seq<Result<usize, std::io::Error>>,
    direct: Seq<Result<usize, std::io::Error>>,
    post: Ledger,
    r: Result<usize, std::io::Error>,
)
    requires
        write_ran(pre, buf, drain, direct, post, r),
    ensures
        (forall|i: int| 0 <= i < drain.len() ==> !is_failure(#[trigger] drain[i])) && (forall|
            i: int,
        |
            0 <= i < direct.len() ==> !is_failure(#[trigger] direct[i])) ==> is_count(
            r,
            buf.len(),
        ),
        is_count(r, buf.len()) ==> carries_on(pre, buf, post),
        is_count(r, buf.len()) ==> (forall|i: int|
            0 <= i < drain.len() ==> !is_failure(#[trigger] drain[i])) && (forall|i: int|
            0 <= i < direct.len() ==> !is_failure(#[trigger] direct[i])),
        is_count(r, buf.len()) || r is Err,
        r matches Err(e) ==> !is_would_block(e) && (drain.len() > 0 && drain.last() == Err::<
            usize,
            std::io::Error,
        >(e) || direct.len() > 0 && direct.last() == Err::<usize, std::io::Error>(e)),
{
    let mid = after(pre, drain);
    let queued = mid.taking(buf);
    lemma_run_keeps_order(pre, drain);
    lemma_run_fails_with_the_sink(pre, drain);
    if failure_of(pre, drain) is None {
        assert(queued.accepted() =~= mid.accepted() + buf);
        assert(carries_on(mid, buf, queued));
        lemma_carries_on_twice(pre, Seq::empty(), mid, buf, queued);
        assert(Seq::<u8>::empty() + buf =~= buf);
        if mid.pending.len() == 0 {
            lemma_run_keeps_order(queued, direct);
            lemma_run_fails_with_the_sink(queued, direct);
            lemma_carries_on_twice(pre, buf, queued, Seq::empty(), after(queued, direct));
            assert(buf + Seq::<u8>::empty() =~= buf);
        }
    }
}

/// Taking in a buffer goes well unless the sink fails. Where it goes well
/// the whole buffer stands behind all earlier bytes, delivered or pending;
/// where it fails, the buffer was not empty and the failure is one of the
/// sink's that is not "would block".
pub proof fn lemma_submit_takes_all(
    pre: Ledger,
    buf: Seq<u8>,
    post: Ledger,
    r: Result<(), std::io::Error>,
)
    requires
        submit_ran(pre, buf, post, r),
    ensures
        r is Ok ==> carries_on(pre, buf, post),
        r matches Err(e) ==> buf.len() > 0 && !is_would_block(e),
{
    if buf.len() == 0 {
        lemma_stays(pre);
        assert(pre.accepted() + buf =~= pre.accepted());
    } else {
        let (drain, direct, n) = choose|
            drain: Seq<Result<usize, std::io::Error>>,
            direct: Seq<Result<usize, std::io::Error>>,
            n: Result<usize, std::io::Error>,
        | #[trigger] write_ran(pre, buf, drain, direct, post, n) && same_end(n, r);
        lemma_write_takes_all(pre, buf, drain, direct, post, n);
    }
}

/// Two changes of a ledger one after the other are one change that takes in
/// what the two took in.
pub proof fn lemma_carries_on_twice(a: Ledger, x: Seq<u8>, b: Ledger, y: Seq<u8>, c: Ledger)
    requires
        carries_on(a, x, b),
        carries_on(b, y, c),
    ensures
        carries_on(a, x + y, c),
{
    assert(a.delivered =~= c.delivered.subrange(0, a.delivered.len() as int));
    assert(c.accepted() =~= a.accepted() + (x + y));
}

/// Order is kept. Take a writer from its first state through any number of
/// calls, the `i`-th of which takes in `taken[i]` (the buffer of a write,
/// nothing for a drain or a flush) and changes the ledger as `carries_on`
/// allows, whatever the sink refused in between. Then the bytes the sink has
/// seen, followed by the bytes still pending, are all buffers one after the
/// other in the order of the calls; and once nothing is pending the sink has
/// seen exactly that.
pub proof fn lemma_order_preserved(states: Seq<Ledger>, taken: Seq<Seq<u8>>)
    requires
        states.len() == taken.len() + 1,
        states[0].accepted() == Seq::<u8>::empty(),
        forall|i: int|
            0 <= i < taken.len() ==> carries_on(states[i], taken[i], #[trigger] states[i + 1]),
    ensures
        states.last().accepted() == taken.flatten(),
        states.last().delivered.is_prefix_of(taken.flatten()),
        states.last().pending.len() == 0 ==> states.last().delivered == taken.flatten(),
    decreases taken.len(),
{
    if taken.len() == 0 {
        assert(taken.flatten() =~= Seq::<u8>::empty());
    } else {
        let earlier = states.drop_last();
        let before = taken.drop_last();
        assert forall|i: int| 0 <= i < before.len() implies carries_on(
            earlier[i],
            before[i],
            #[trigger] earlier[i + 1],
        ) by {
            assert(carries_on(states[i], taken[i], states[i + 1]));
        }
        lemma_order_preserved(earlier, before);
        let n: int = taken.len() as int;
        assert(carries_on(states[n - 1], taken[n - 1], states[n - 1 + 1]));
        before.lemma_flatten_push(taken.last());
        assert(before.push(taken.last()) =~= taken);
    }
    let last = states.last();
    assert(last.delivered =~= last.accepted().subrange(0, last.delivered.len() as int));
    if last.pending.len() == 0 {
        assert(last.delivered =~= last.accepted());
    }
}

/// Draining ends. In a run of drains each of which moved at least one byte,
/// every drain leaves fewer bytes pending than it found, so the run is no
/// longer than the queue it started with; and a drain during which the sink
/// refused no offer leaves nothing pending.
pub proof fn lemma_drains_finish(states: Seq<Ledger>)
    requires
        states.len() >= 1,
        forall|i: int|
            0 <= i < states.len() - 1 ==> drained(states[i], true, #[trigger] states[i + 1]),
    ensures
        states.last().pending.len() + (states.len() - 1) <= states[0].pending.len(),
        states.len() > 1 && !states.last().blocked ==> states.last().pending.len() == 0,
    decreases states.len(),
{
    if states.len() > 1 {
        let earlier = states.drop_last();
        assert forall|i: int| 0 <= i < earlier.len() - 1 implies drained(
            earlier[i],
            true,
            #[trigger] earlier[i + 1],
        ) by {
            assert(drained(states[i], true, states[i + 1]));
        }
        lemma_drains_finish(earlier);
        let n: int = states.len() as int;
        let pre = states[n - 2];
        let post = states[n - 2 + 1];
        assert(drained(pre, true, post));
        assert(post.accepted().len() == pre.accepted().len());
    }
}

} // verus!
