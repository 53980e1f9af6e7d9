use remoterm::{maybe, PatientWriter};
use std::cell::RefCell;
use std::collections::VecDeque;
use std::io::{Error, ErrorKind, Write};
use std::rc::Rc;

/// One answer of the scripted sink to a call of `write` or `flush`.
#[derive(Clone, Copy, Debug)]
enum Answer {
    Take(usize),
    Block,
    Fail(ErrorKind),
}

/// A sink that answers by a script and, when the script has run out, by one
/// fixed answer. It records what it took and how often it was flushed.
struct Scripted {
    seen: Rc<RefCell<Vec<u8>>>,
    calls: Rc<RefCell<usize>>,
    flushes: Rc<RefCell<usize>>,
    script: VecDeque<Answer>,
    then: Answer,
    on_flush: VecDeque<Answer>,
}

impl Scripted {
    fn new(script: &[Answer], then: Answer) -> Scripted {
        Scripted {
            seen: Rc::new(RefCell::new(Vec::new())),
            calls: Rc::new(RefCell::new(0)),
            flushes: Rc::new(RefCell::new(0)),
            script: script.iter().copied().collect(),
            then,
            on_flush: VecDeque::new(),
        }
    }
}

impl Write for Scripted {
    fn write(&mut self, buf: &[u8]) -> Result<usize, Error> {
        *self.calls.borrow_mut() += 1;
        match self.script.pop_front().unwrap_or(self.then) {
            Answer::Take(n) => {
                let k = n.min(buf.len());
                self.seen.borrow_mut().extend_from_slice(&buf[..k]);
                Ok(k)
            }
            Answer::Block => Err(Error::new(ErrorKind::WouldBlock, "not now")),
            Answer::Fail(kind) => Err(Error::new(kind, "broken")),
        }
    }

    fn flush(&mut self) -> Result<(), Error> {
        *self.flushes.borrow_mut() += 1;
        match self.on_flush.pop_front() {
            Some(Answer::Block) => Err(Error::new(ErrorKind::WouldBlock, "not now")),
            Some(Answer::Fail(kind)) => Err(Error::new(kind, "broken")),
            _ => Ok(()),
        }
    }
}

fn seen(writer: &PatientWriter<Scripted>) -> Vec<u8> {
    writer.seen.borrow().clone()
}

fn calls(writer: &PatientWriter<Scripted>) -> usize {
    *writer.calls.borrow()
}

#[test]
fn maybe_passes_a_value_on() {
    let r = maybe::<usize>(Ok(7));
    assert_eq!(r.unwrap(), Some(7));
}

#[test]
fn maybe_turns_would_block_into_none() {
    let r = maybe::<usize>(Err(Error::new(ErrorKind::WouldBlock, "wait")));
    assert_eq!(r.unwrap(), None);
}

#[test]
fn maybe_keeps_other_errors() {
    let r = maybe::<usize>(Err(Error::new(ErrorKind::BrokenPipe, "gone")));
    assert_eq!(r.unwrap_err().kind(), ErrorKind::BrokenPipe);
    let r = maybe::<usize>(Err(Error::new(ErrorKind::Interrupted, "signal")));
    assert_eq!(r.unwrap_err().kind(), ErrorKind::Interrupted);
}

#[test]
fn an_answer_that_took_bytes_strikes_them_off_the_queue() {
    let mut w = PatientWriter::new(Scripted::new(&[Answer::Block], Answer::Take(usize::MAX)));
    w.write(b"abc").unwrap();
    // Entered by hand: the sink took two bytes, one is left to offer.
    assert_eq!(w.settle_offer(Ok(2)).unwrap(), true);
    assert_eq!(seen(&w), b"");
    assert_eq!(w.write_todo().unwrap(), true);
    assert_eq!(seen(&w), b"c");
    assert_eq!(w.write_todo().unwrap(), false);
}

#[test]
fn an_answer_that_took_all_ends_the_offers() {
    let mut w = PatientWriter::new(Scripted::new(&[Answer::Block], Answer::Take(usize::MAX)));
    w.write(b"abc").unwrap();
    assert_eq!(w.settle_offer(Ok(3)).unwrap(), false);
    assert_eq!(w.write_todo().unwrap(), false);
    assert_eq!(calls(&w), 1);
}

#[test]
fn a_refusal_ends_the_offers_and_keeps_the_queue() {
    let mut w = PatientWriter::new(Scripted::new(&[Answer::Block], Answer::Take(usize::MAX)));
    w.write(b"abc").unwrap();
    assert_eq!(w.settle_offer(Ok(0)).unwrap(), false);
    assert_eq!(w.settle_offer(Err(Error::new(ErrorKind::WouldBlock, "wait"))).unwrap(), false);
    assert_eq!(w.write_todo().unwrap(), true);
    assert_eq!(seen(&w), b"abc");
}

#[test]
fn a_failure_is_handed_on_and_keeps_the_queue() {
    let mut w = PatientWriter::new(Scripted::new(&[Answer::Block], Answer::Take(usize::MAX)));
    w.write(b"abc").unwrap();
    let failure = w.settle_offer(Err(Error::new(ErrorKind::BrokenPipe, "gone"))).unwrap_err();
    assert_eq!(failure.kind(), ErrorKind::BrokenPipe);
    assert_eq!(failure.to_string(), "gone");
    assert_eq!(w.write_todo().unwrap(), true);
    assert_eq!(seen(&w), b"abc");
}

#[test]
fn a_sink_that_takes_two_bytes_a_call_gets_all_in_three() {
    let mut w = PatientWriter::new(Scripted::new(&[], Answer::Take(2)));
    assert_eq!(w.write(b"hello").unwrap(), 5);
    assert_eq!(seen(&w), b"hello");
    assert_eq!(calls(&w), 3);
    assert_eq!(w.write_todo().unwrap(), false);
    assert_eq!(calls(&w), 3);
}

#[test]
fn a_sink_that_always_answers_zero_is_asked_once() {
    let mut w = PatientWriter::new(Scripted::new(&[], Answer::Take(0)));
    assert_eq!(w.write(b"abc").unwrap(), 3);
    assert_eq!((seen(&w), calls(&w)), (Vec::new(), 1));
    assert_eq!(w.write_todo().unwrap(), false);
    assert_eq!((seen(&w), calls(&w)), (Vec::new(), 2));
}

#[test]
fn a_refused_drain_asks_once_and_reports_no_progress() {
    let mut w = PatientWriter::new(Scripted::new(&[], Answer::Block));
    w.write(b"abc").unwrap();
    assert_eq!(calls(&w), 1);
    assert_eq!(w.write_todo().unwrap(), false);
    assert_eq!((seen(&w), calls(&w)), (Vec::new(), 2));
}

#[test]
fn the_sink_is_not_asked_after_it_failed() {
    let mut w = PatientWriter::new(Scripted::new(
        &[Answer::Take(1), Answer::Fail(ErrorKind::BrokenPipe)],
        Answer::Take(usize::MAX),
    ));
    assert_eq!(w.write(b"abc").unwrap_err().kind(), ErrorKind::BrokenPipe);
    assert_eq!((seen(&w), calls(&w)), (b"a".to_vec(), 2));
}

#[test]
fn every_second_call_blocks_and_fifteen_drains_finish_the_megabyte() {
    const TOTAL: usize = 1 << 20;
    const CHUNK: usize = 64 * 1024;
    let data: Vec<u8> = (0..TOTAL).map(|i| (i % 251) as u8).collect();
    let mut script = Vec::new();
    for call in 1..=40 {
        script.push(if call % 2 == 1 { Answer::Take(CHUNK) } else { Answer::Block });
    }
    let mut w = PatientWriter::new(Scripted::new(&script, Answer::Block));
    assert_eq!(w.write(&data).unwrap(), TOTAL);
    for _ in 0..15 {
        assert_eq!(w.write_todo().unwrap(), true);
    }
    assert_eq!(seen(&w), data);
    assert_eq!(w.write_todo().unwrap(), false);
    assert_eq!(calls(&w), 31);
}

#[test]
fn an_unused_writer_leaves_its_sink_alone() {
    let mut w = PatientWriter::new(vec![7u8, 8]);
    assert_eq!(*w, vec![7u8, 8]);
    assert_eq!(w.write_todo().unwrap(), false);
    w.on_writable().unwrap();
    assert_eq!(*w, vec![7u8, 8]);
}

#[test]
fn write_to_a_willing_sink_goes_straight_through() {
    let mut w = PatientWriter::new(Scripted::new(&[], Answer::Take(usize::MAX)));
    assert_eq!(w.write(b"hello").unwrap(), 5);
    assert_eq!(seen(&w), b"hello");
    assert_eq!(w.write_todo().unwrap(), false);
}

#[test]
fn write_to_a_blocked_sink_still_takes_everything() {
    let mut w = PatientWriter::new(Scripted::new(&[], Answer::Block));
    assert_eq!(w.write(b"hello").unwrap(), 5);
    assert_eq!(w.write(b"").unwrap(), 0);
    assert_eq!(w.write(b" world").unwrap(), 6);
    assert_eq!(seen(&w), b"");
    assert_eq!(w.write_todo().unwrap(), false);
}

#[test]
fn write_returns_the_length_whatever_the_sink_takes() {
    for take in [0usize, 1, 2, 3, 4, 5, 6, 100] {
        let mut w = PatientWriter::new(Scripted::new(&[Answer::Take(take)], Answer::Block));
        assert_eq!(w.write(b"abcdef").unwrap(), 6);
        assert_eq!(seen(&w), b"abcdef"[..take.min(6)].to_vec());
    }
}

#[test]
fn a_sink_that_takes_nothing_counts_as_blocked() {
    let mut w = PatientWriter::new(Scripted::new(&[Answer::Take(2), Answer::Take(0)], Answer::Take(9)));
    assert_eq!(w.write(b"abcdef").unwrap(), 6);
    // Two bytes went out, then the sink took none: the loop stopped there.
    assert_eq!(seen(&w), b"ab");
    assert_eq!(w.write_todo().unwrap(), true);
    assert_eq!(seen(&w), b"abcdef");
}

#[test]
fn write_todo_says_whether_bytes_moved() {
    let mut w = PatientWriter::new(Scripted::new(
        &[Answer::Block, Answer::Block, Answer::Take(1), Answer::Block],
        Answer::Take(usize::MAX),
    ));
    assert_eq!(w.write_todo().unwrap(), false);
    w.write(b"xyz").unwrap();
    assert_eq!(w.write_todo().unwrap(), false);
    assert_eq!(seen(&w), b"");
    assert_eq!(w.write_todo().unwrap(), true);
    assert_eq!(seen(&w), b"x");
    assert_eq!(w.write_todo().unwrap(), true);
    assert_eq!(seen(&w), b"xyz");
    assert_eq!(w.write_todo().unwrap(), false);
}

#[test]
fn order_is_kept_across_refusals() {
    let script = [
        Answer::Take(1),
        Answer::Block,
        Answer::Block,
        Answer::Take(2),
        Answer::Take(0),
        Answer::Take(3),
        Answer::Block,
    ];
    let mut w = PatientWriter::new(Scripted::new(&script, Answer::Take(4)));
    let parts: [&[u8]; 5] = [b"one,", b"two,", b"", b"three,", b"four"];
    let mut all = Vec::new();
    for part in parts {
        assert_eq!(w.write(part).unwrap(), part.len());
        all.extend_from_slice(part);
        let so_far = seen(&w);
        assert_eq!(so_far, all[..so_far.len()].to_vec());
    }
    let mut rounds = 0;
    while seen(&w).len() < all.len() {
        w.write_todo().unwrap();
        rounds += 1;
        assert!(rounds <= all.len() + script.len());
    }
    assert_eq!(seen(&w), all);
    assert_eq!(w.write_todo().unwrap(), false);
}

#[test]
fn new_bytes_never_overtake_pending_ones() {
    // The sink refuses "abc", refuses again when asked to drain, and would
    // take bytes right after that: "def" must not slip through before "abc".
    let mut w = PatientWriter::new(Scripted::new(&[Answer::Block, Answer::Block], Answer::Take(usize::MAX)));
    assert_eq!(w.write(b"abc").unwrap(), 3);
    assert_eq!(w.write(b"def").unwrap(), 3);
    assert_eq!(seen(&w), b"");
    assert_eq!(w.write_todo().unwrap(), true);
    assert_eq!(seen(&w), b"abcdef");
}

#[test]
fn write_drains_pending_bytes_first() {
    let mut w = PatientWriter::new(Scripted::new(&[Answer::Block], Answer::Take(2)));
    w.write(b"abc").unwrap();
    assert_eq!(w.write(b"de").unwrap(), 2);
    assert_eq!(seen(&w), b"abcde");
}

#[test]
fn a_megabyte_through_a_narrow_sink() {
    const TOTAL: usize = 1 << 20;
    const CHUNK: usize = 64 * 1024;
    let data: Vec<u8> = (0..TOTAL).map(|i| (i * 31 % 251) as u8).collect();
    // Every third call the sink would block; otherwise it takes 64 KiB.
    let mut script = Vec::new();
    for i in 0..100 {
        script.push(if i % 3 == 0 { Answer::Block } else { Answer::Take(CHUNK) });
    }
    let mut w = PatientWriter::new(Scripted::new(&script, Answer::Take(CHUNK)));
    assert_eq!(w.write(&data).unwrap(), TOTAL);
    let mut edges = 0;
    while seen(&w).len() < TOTAL {
        w.write_todo().unwrap();
        edges += 1;
        assert!(edges <= 100, "no progress");
    }
    assert!(edges > 0);
    assert_eq!(seen(&w), data);
}

#[test]
fn repeated_drains_empty_the_queue_once_the_sink_gives_way() {
    let mut w = PatientWriter::new(Scripted::new(
        &[Answer::Block, Answer::Block, Answer::Block, Answer::Block],
        Answer::Take(1),
    ));
    w.write(b"abcd").unwrap();
    assert_eq!(w.write_todo().unwrap(), false);
    assert_eq!(w.write_todo().unwrap(), false);
    assert_eq!(w.write_todo().unwrap(), false);
    // From here on the sink takes one byte per call and never refuses: one
    // drain is enough.
    assert_eq!(w.write_todo().unwrap(), true);
    assert_eq!(seen(&w), b"abcd");
    assert_eq!(w.write_todo().unwrap(), false);
}

#[test]
fn a_failing_sink_fails_the_drain_and_keeps_what_is_left() {
    let mut w = PatientWriter::new(Scripted::new(
        &[Answer::Block, Answer::Take(3), Answer::Fail(ErrorKind::BrokenPipe)],
        Answer::Take(usize::MAX),
    ));
    w.write(b"abcdef").unwrap();
    let err = w.write_todo().unwrap_err();
    assert_eq!(err.kind(), ErrorKind::BrokenPipe);
    assert_eq!(seen(&w), b"abc");
    // What the sink took before it failed is not sent twice.
    assert_eq!(w.write_todo().unwrap(), true);
    assert_eq!(seen(&w), b"abcdef");
}

#[test]
fn a_failing_sink_fails_the_write() {
    let mut w = PatientWriter::new(Scripted::new(
        &[Answer::Take(2), Answer::Fail(ErrorKind::ConnectionReset)],
        Answer::Take(usize::MAX),
    ));
    let err = w.write(b"abcdef").unwrap_err();
    assert_eq!(err.kind(), ErrorKind::ConnectionReset);
    assert_eq!(seen(&w), b"ab");
    // The rest of the failed buffer was dropped with the failure.
    assert_eq!(w.write_todo().unwrap(), false);
    assert_eq!(w.write(b"gh").unwrap(), 2);
    assert_eq!(seen(&w), b"abgh");
}

#[test]
fn a_failure_while_draining_fails_the_write_and_takes_nothing_new() {
    let mut w = PatientWriter::new(Scripted::new(
        &[Answer::Block, Answer::Take(1), Answer::Fail(ErrorKind::Other)],
        Answer::Take(usize::MAX),
    ));
    w.write(b"abc").unwrap();
    let err = w.write(b"def").unwrap_err();
    assert_eq!(err.kind(), ErrorKind::Other);
    assert_eq!(seen(&w), b"a");
    assert_eq!(w.write_todo().unwrap(), true);
    assert_eq!(seen(&w), b"abc");
}

#[test]
fn interrupted_is_an_error_like_any_other() {
    let mut w = PatientWriter::new(Scripted::new(&[Answer::Fail(ErrorKind::Interrupted)], Answer::Take(9)));
    assert_eq!(w.write(b"abc").unwrap_err().kind(), ErrorKind::Interrupted);
    assert_eq!(seen(&w), b"");
}

#[test]
fn the_writer_is_a_writer() {
    fn feed<T: Write>(sink: &mut T) -> Result<(), Error> {
        sink.write_all(b"abc")?;
        sink.write_all(b"")?;
        sink.write_all(b"def")?;
        sink.flush()
    }
    let mut w = PatientWriter::new(Scripted::new(&[Answer::Take(1), Answer::Block], Answer::Take(usize::MAX)));
    feed(&mut w).unwrap();
    assert_eq!(seen(&w), b"abcdef");
    assert_eq!(*w.flushes.borrow(), 1);
}

#[test]
fn submit_takes_the_whole_buffer() {
    let mut w = PatientWriter::new(Scripted::new(&[Answer::Take(1)], Answer::Block));
    w.submit(b"abc").unwrap();
    assert_eq!(seen(&w), b"a");
    w.then = Answer::Take(usize::MAX);
    w.submit(b"").unwrap();
    // An empty buffer does not even make the writer drain.
    assert_eq!(seen(&w), b"a");
    w.submit(b"d").unwrap();
    assert_eq!(seen(&w), b"abcd");
}

#[test]
fn submit_fails_with_the_sink() {
    let mut w = PatientWriter::new(Scripted::new(&[Answer::Fail(ErrorKind::BrokenPipe)], Answer::Block));
    assert_eq!(w.submit(b"abc").unwrap_err().kind(), ErrorKind::BrokenPipe);
    assert!(w.submit(b"").is_ok());
}

#[test]
fn a_writable_edge_flushes_only_if_bytes_moved() {
    let mut w = PatientWriter::new(Scripted::new(&[Answer::Block, Answer::Block], Answer::Take(2)));
    // Nothing is pending: the sink is not even asked.
    w.on_writable().unwrap();
    assert_eq!(*w.flushes.borrow(), 0);
    assert_eq!(w.script.len(), 2);
    w.write(b"abc").unwrap();
    // Still blocked: nothing moves, nothing is flushed.
    w.on_writable().unwrap();
    assert_eq!((seen(&w), *w.flushes.borrow()), (b"".to_vec(), 0));
    w.on_writable().unwrap();
    assert_eq!((seen(&w), *w.flushes.borrow()), (b"abc".to_vec(), 1));
    w.on_writable().unwrap();
    assert_eq!(*w.flushes.borrow(), 1);
}

#[test]
fn a_writable_edge_fails_with_the_sink() {
    let mut w = PatientWriter::new(Scripted::new(
        &[Answer::Block, Answer::Fail(ErrorKind::BrokenPipe)],
        Answer::Take(usize::MAX),
    ));
    w.write(b"abc").unwrap();
    assert_eq!(w.on_writable().unwrap_err().kind(), ErrorKind::BrokenPipe);
    assert_eq!(*w.flushes.borrow(), 0);
    w.on_flush.push_back(Answer::Fail(ErrorKind::Other));
    assert_eq!(w.on_writable().unwrap_err().kind(), ErrorKind::Other);
    assert_eq!((seen(&w), *w.flushes.borrow()), (b"abc".to_vec(), 1));
}

#[test]
fn flush_reaches_the_sink() {
    let mut w = PatientWriter::new(Scripted::new(&[], Answer::Block));
    w.write(b"abc").unwrap();
    w.flush().unwrap();
    assert_eq!(*w.flushes.borrow(), 1);
    // Flushing does not drain.
    assert_eq!(seen(&w), b"");
}

#[test]
fn flush_forgives_would_block_only() {
    let mut w = PatientWriter::new(Scripted::new(&[], Answer::Take(usize::MAX)));
    w.on_flush.push_back(Answer::Block);
    w.on_flush.push_back(Answer::Fail(ErrorKind::BrokenPipe));
    assert!(w.flush().is_ok());
    assert_eq!(w.flush().unwrap_err().kind(), ErrorKind::BrokenPipe);
    assert!(w.flush().is_ok());
    assert_eq!(*w.flushes.borrow(), 3);
}

#[test]
fn the_sink_can_be_reached() {
    let mut w = PatientWriter::new(Vec::<u8>::new());
    w.write(b"abc").unwrap();
    assert_eq!(w.as_slice(), b"abc");
    assert_eq!(w.len(), 3);
    w.clear();
    w.write(b"d").unwrap();
    assert_eq!(w.as_slice(), b"d");
}
