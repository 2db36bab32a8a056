//! Link abstractions: channels that delay messages, limit their data rate and
//! queue or drop what arrives while they are busy.
use vstd::prelude::*;
use std::collections::VecDeque;
use datarate::{queued_bytes, queue_limit, lemma_queued_bytes_front};

pub mod datarate;
pub mod delay;
pub mod link;
pub mod metrics;

verus! {

/// The behaviour a link should follow, if it is oversubscribed
#[derive(Debug, Default, Clone, Copy, PartialEq, Eq, Structural)]
pub enum ChannelDropBehaviour {
    /// If a link is currently busy, drop packets
    #[default]
    Drop,
    /// If a link is currently busy, queue packets up to a
    /// provided queuelength (None means infinite queuelength)
    Queue(Option<usize>),
}

/// The messages waiting on a busy link, oldest first, each with its length
/// in bytes, and their summed length.
#[derive(Debug)]
pub struct Buffer<Q> {
    packets: VecDeque<(Q, usize)>,
    acc_bytes: usize,
}

impl<Q> Buffer<Q> {
    /// The waiting messages with their lengths, oldest first.
    pub closed spec fn queue(&self) -> Seq<(Q, usize)> {
        self.packets@
    }

    /// The summed length is kept up to date.
    pub closed spec fn wf(&self) -> bool {
        self.acc_bytes == queued_bytes(self.packets@)
    }

    /// An empty buffer.
    pub fn new() -> (r: Self)
        ensures
            r.wf(),
            r.queue() == Seq::<(Q, usize)>::empty(),
    {
        Buffer { packets: VecDeque::new(), acc_bytes: 0 }
    }

    /// The summed length of the waiting messages in bytes.
    pub fn acc_bytes(&self) -> (r: usize)
        requires
            self.wf(),
        ensures
            r == queued_bytes(self.queue()),
    {
        self.acc_bytes
    }

    /// The number of waiting messages.
    pub fn len(&self) -> (r: usize)
        ensures
            r == self.queue().len(),
    {
        self.packets.len()
    }

    /// Puts `msg` of `len` bytes at the back of the queue.
    pub fn enqueue(&mut self, msg: Q, len: usize)
        requires
            old(self).wf(),
            queued_bytes(old(self).queue()) + len <= usize::MAX,
        ensures
            final(self).wf(),
            final(self).queue() == old(self).queue().push((msg, len)),
    {
        let ghost old_q = self.packets@;
        self.packets.push_back((msg, len));
        proof {
            assert(self.packets@.drop_last() =~= old_q);
        }
        self.acc_bytes = self.acc_bytes + len;
    }

    /// Takes the oldest message off the queue, if there is one.
    pub fn dequeue(&mut self) -> (r: Option<(Q, usize)>)
        requires
            old(self).wf(),
        ensures
            final(self).wf(),
            old(self).queue().len() == 0 ==> r is None && final(self).queue() == old(self).queue(),
            old(self).queue().len() > 0 ==> r == Some(old(self).queue()[0])
                && final(self).queue() == old(self).queue().drop_first(),
    {
        if self.packets.len() == 0 {
            return None;
        }
        let ghost old_q = self.packets@;
        let front = self.packets.pop_front();
        proof {
            lemma_queued_bytes_front(old_q);
        }
        let front = front.unwrap();
        self.acc_bytes = self.acc_bytes - front.1;
        Some(front)
    }
}

impl ChannelDropBehaviour {
    /// Handles `msg` of `len` bytes arriving at a busy link: a dropping link
    /// hands it back, as does a queueing one whose queue would then hold more
    /// bytes than its limit; otherwise it joins the queue.
    pub fn handle<Q>(&self, buffer: &mut Buffer<Q>, msg: Q, len: usize) -> (r: Option<Q>)
        requires
            old(buffer).wf(),
        ensures
            final(buffer).wf(),
            match r {
                Some(back) => {
                    &&& back == msg
                    &&& (*self == ChannelDropBehaviour::Drop
                        || queued_bytes(old(buffer).queue()) + len > queue_limit(*self))
                    &&& final(buffer).queue() == old(buffer).queue()
                },
                None => {
                    &&& *self != ChannelDropBehaviour::Drop
                    &&& queued_bytes(old(buffer).queue()) + len <= queue_limit(*self)
                    &&& final(buffer).queue() == old(buffer).queue().push((msg, len))
                },
            },
    {
        match self {
            ChannelDropBehaviour::Drop => Some(msg),
            ChannelDropBehaviour::Queue(limit) => {
                let max = match limit {
                    Some(l) => *l,
                    None => usize::MAX,
                };
                let queued = buffer.acc_bytes();
                if len > max || queued > max - len {
                    Some(msg)
                } else {
                    buffer.enqueue(msg, len);
                    None
                }
            },
        }
    }
}

} // verus!
