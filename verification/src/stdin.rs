//! The keyboard's side of a session. A reader of its own waits on standard
//! input and puts what it gets into a queue, packet by packet; the session
//! takes the packets out in the order in which they were put in.

use std::collections::VecDeque;
use vstd::prelude::*;
use vstd::slice::{slice_subrange, slice_to_vec};

verus! {

/// Size of the buffer the keyboard's reader reads into.
pub const STDIN_CHUNK: usize = 1024;

/// What the keyboard's reader makes of the answer to one read into
/// `scratch`: a packet of exactly the bytes read, or nothing where standard
/// input is at its end or has failed, which ends the reader.
pub open spec fn spec_packet_of(scratch: Seq<u8>, answer: Result<usize, std::io::Error>) -> Option<
    Seq<u8>,
> {
    match answer {
        Ok(n) => if n == 0 {
            None
        } else {
            Some(scratch.take(n as int))
        },
        Err(_) => None,
    }
}

/// Makes the packet for one read of the keyboard's reader, if the read
/// brought any byte.
pub fn packet_of(scratch: &[u8], answer: Result<usize, std::io::Error>) -> (r: Option<Vec<u8>>)
    requires
        answer matches Ok(n) ==> n <= scratch@.len(),
    ensures
        match r {
            Some(packet) => spec_packet_of(scratch@, answer) == Some(packet@),
            None => spec_packet_of(scratch@, answer) is None,
        },
{
    match answer {
        Ok(n) => {
            if n == 0 {
                None
            } else {
                Some(slice_to_vec(slice_subrange(scratch, 0, n)))
            }
        },
        Err(_) => None,
    }
}

/// The packets that the keyboard's reader has made and the session has not
/// yet taken. Whoever shares it between the two guards it with a lock.
pub struct PacketQueue {
    packets: VecDeque<Vec<u8>>,
}

impl View for PacketQueue {
    type V = Seq<Seq<u8>>;

    /// The packets waiting, oldest first.
    closed spec fn view(&self) -> Seq<Seq<u8>> {
        self.packets@.map_values(|packet: Vec<u8>| packet@)
    }
}

impl PacketQueue {
    /// A queue without packets.
    pub fn new() -> (queue: Self)
        ensures
            queue@ == Seq::<Seq<u8>>::empty(),
    {
        let queue = PacketQueue { packets: VecDeque::new() };
        assert(queue@ =~= Seq::<Seq<u8>>::empty());
        queue
    }

    /// How many packets are waiting.
    pub fn len(&self) -> (n: usize)
        ensures
            n == self@.len(),
    {
        self.packets.len()
    }

    /// Puts a packet behind all that are waiting.
    pub fn publish(&mut self, packet: Vec<u8>)
        ensures
            final(self)@ == old(self)@.push(packet@),
    {
        self.packets.push_back(packet);
        assert(self@ =~= old(self)@.push(packet@));
    }

    /// Takes out the packet that has waited longest, if any is waiting. It
    /// never waits for one.
    pub fn try_recv(&mut self) -> (r: Option<Vec<u8>>)
        ensures
            match r {
                Some(packet) => old(self)@.len() > 0 && packet@ == old(self)@[0] && final(self)@
                    == old(self)@.skip(1),
                None => old(self)@.len() == 0 && final(self)@ == old(self)@,
            },
    {
        let r = self.packets.pop_front();
        assert(r is Some ==> self@ =~= old(self)@.skip(1));
        r
    }
}

/// What is done to a queue of packets.
pub enum QueueOp {
    /// The keyboard's reader put a packet in.
    Published(Seq<u8>),
    /// The session took a packet out.
    Taken(Seq<u8>),
}

/// How a queue changes when something is done to it.
pub open spec fn queue_step(pre: Seq<Seq<u8>>, op: QueueOp, post: Seq<Seq<u8>>) -> bool {
    match op {
        QueueOp::Published(packet) => post == pre.push(packet),
        QueueOp::Taken(packet) => pre.len() > 0 && packet == pre[0] && post == pre.skip(1),
    }
}

/// The bytes of all packets put in by a run of operations, in that order.
pub open spec fn published(run: Seq<QueueOp>) -> Seq<u8>
    decreases run.len(),
{
    if run.len() == 0 {
        Seq::empty()
    } else {
        published(run.drop_last()) + (match run.last() {
            QueueOp::Published(packet) => packet,
            QueueOp::Taken(_) => Seq::empty(),
        })
    }
}

/// The bytes of all packets taken out by a run of operations, in that order.
pub open spec fn taken(run: Seq<QueueOp>) -> Seq<u8>
    decreases run.len(),
{
    if run.len() == 0 {
        Seq::empty()
    } else {
        taken(run.drop_last()) + (match run.last() {
            QueueOp::Published(_) => Seq::empty(),
            QueueOp::Taken(packet) => packet,
        })
    }
}

/// First in, first out. Take a queue from empty through any run of
/// operations. Then the bytes taken out, followed by the bytes of the
/// packets still waiting, are the bytes put in, in the order in which they
/// were put in: where packets end carries no meaning, and no byte is lost,
/// doubled or moved.
pub proof fn lemma_first_in_first_out(states: Seq<Seq<Seq<u8>>>, run: Seq<QueueOp>)
    requires
        states.len() == run.len() + 1,
        states[0].len() == 0,
        forall|i: int|
            0 <= i < run.len() ==> queue_step(states[i], run[i], #[trigger] states[i + 1]),
    ensures
        taken(run) + states.last().flatten() == published(run),
        states.last().len() == 0 ==> taken(run) == published(run),
    decreases run.len(),
{
    if run.len() == 0 {
        assert(states.last().flatten() =~= Seq::<u8>::empty());
    } else {
        let earlier = states.drop_last();
        let before = run.drop_last();
        assert forall|i: int| 0 <= i < before.len() implies queue_step(
            earlier[i],
            before[i],
            #[trigger] earlier[i + 1],
        ) by {
            assert(queue_step(states[i], run[i], states[i + 1]));
        }
        lemma_first_in_first_out(earlier, before);
        let n: int = run.len() as int;
        assert(queue_step(states[n - 1], run[n - 1], states[n - 1 + 1]));
        let pre = states[n - 1];
        let post = states[n];
        assert(pre == earlier.last());
        match run.last() {
            QueueOp::Published(packet) => {
                pre.lemma_flatten_push(packet);
                assert(taken(run) + post.flatten() =~= (taken(before) + pre.flatten()) + packet);
            },
            QueueOp::Taken(packet) => {
                assert(pre.flatten() =~= packet + post.flatten()) by {
                    assert(pre.drop_first() =~= pre.skip(1));
                }
                assert(taken(run) + post.flatten() =~= taken(before) + pre.flatten());
                assert(published(run) =~= published(before));
            },
        }
    }
    if states.last().len() == 0 {
        assert(states.last().flatten() =~= Seq::<u8>::empty());
        assert(taken(run) + Seq::<u8>::empty() =~= taken(run));
    }
}

} // verus!
