//! A channel that supports both datarate limiting and propagation delay.
use vstd::prelude::*;
use std::time::Duration;
use super::ChannelDropBehaviour;
use std::collections::VecDeque;
use crate::time::{SimTime, duration_nanos, duration_as_nanos};

verus! {

/// Metrics that define a channels capabilitites.
#[derive(Debug, Clone, Copy, PartialEq)]
pub struct DatarateChannelMetrics {
    /// The maximum throughput of the channel in bit/s
    pub bitrate: usize,
    /// The latency a message endures while transversing a channel.
    pub latency: Duration,
    /// The variance in latency.
    pub jitter: Duration,
    /// The size of the channels queue in bytes.
    pub drop_behaviour: ChannelDropBehaviour,
}

impl DatarateChannelMetrics {
    /// Creates a new instance of channel metrics.
    pub fn new(
        bitrate: usize,
        latency: Duration,
        jitter: Duration,
        drop_behaviour: ChannelDropBehaviour,
    ) -> (r: Self)
        ensures
            r.bitrate == bitrate,
            r.latency == latency,
            r.jitter == jitter,
            r.drop_behaviour == drop_behaviour,
    {
        Self { bitrate, latency, jitter, drop_behaviour }
    }
}

/// The sum of the lengths of queued items.
pub open spec fn queued_bytes<Q>(q: Seq<(Q, usize)>) -> int
    decreases q.len(),
{
    if q.len() == 0 {
        0
    } else {
        queued_bytes(q.drop_last()) + q.last().1
    }
}

/// The byte limit of a queueing channel (none means no limit but `usize::MAX`).
pub open spec fn queue_limit(b: ChannelDropBehaviour) -> int {
    match b {
        ChannelDropBehaviour::Queue(Some(l)) => l as int,
        _ => usize::MAX as int,
    }
}

/// A message that was refused by a channel, with the reason.
#[derive(Debug)]
pub struct SendError<Q> {
    /// The refused message.
    pub msg: Q,
    /// Why it was refused.
    pub reason: String,
}

/// A message leaving the channel at its far end.
#[derive(Debug)]
pub struct Transmission<Q> {
    /// The message.
    pub msg: Q,
    /// When it leaves the channel.
    pub arrival: SimTime,
}

/// What the simulation has to do after a successful send: deliver a message,
/// and wake the channel at a given time.
#[derive(Debug)]
pub struct SendOutcome<Q> {
    /// The message to deliver at the other end, unless it was queued.
    pub exit: Option<Transmission<Q>>,
    /// When to notify the channel that it is no longer busy.
    pub notify_at: Option<SimTime>,
}

/// A channel that supports both datarate limiting and propagation delay.
///
/// Queued items are messages with their length in bytes.
#[derive(Debug)]
pub struct DatarateChannel<Q> {
    metrics: DatarateChannelMetrics,
    buffer: VecDeque<(Q, usize)>,
    acc_bytes: usize,
    transmission_finish_time: SimTime,
    scheduled: Option<SimTime>,
}

impl<Q> DatarateChannel<Q> {
    /// The queued bytes are counted.
    pub closed spec fn wf(&self) -> bool {
        &&& self.acc_bytes == queued_bytes(self.buffer@)
    }

    /// The channel's metrics.
    pub closed spec fn spec_metrics(&self) -> DatarateChannelMetrics {
        self.metrics
    }

    /// The queued messages with their lengths, oldest first.
    pub closed spec fn queue(&self) -> Seq<(Q, usize)> {
        self.buffer@
    }

    /// The queued messages fit in the queue the drop behaviour allows.
    pub open spec fn within_limit(&self) -> bool {
        queued_bytes(self.queue()) <= queue_limit(self.spec_metrics().drop_behaviour)
    }

    /// When the message on the medium has been fully put onto it.
    pub closed spec fn finish_time(&self) -> SimTime {
        self.transmission_finish_time
    }

    /// The time of the unbusy notification that is already scheduled, if any.
    pub closed spec fn scheduled_at(&self) -> Option<SimTime> {
        self.scheduled
    }

    /// A new channel with an empty queue, free from the start.
    pub fn new(metrics: DatarateChannelMetrics) -> (r: Self)
        ensures
            r.wf(),
            r.spec_metrics() == metrics,
            r.queue() == Seq::<(Q, usize)>::empty(),
            r.finish_time().spec_nanos() == 0,
            r.scheduled_at() is None,
            r.within_limit(),
    {
        Self {
            metrics,
            buffer: VecDeque::new(),
            acc_bytes: 0,
            transmission_finish_time: SimTime::zero(),
            scheduled: None,
        }
    }

    /// Buffer queue length in bytes.
    pub fn queue_length(&self) -> (r: usize)
        requires
            self.wf(),
        ensures
            r == queued_bytes(self.queue()),
    {
        self.acc_bytes
    }

    /// Buffer queue length in packets.
    pub fn queue_length_packets(&self) -> (r: usize)
        ensures
            r == self.queue().len(),
    {
        self.buffer.len()
    }

    /// Whether the channel is still putting a message onto the medium at `now`.
    pub fn is_busy(&self, now: SimTime) -> (r: bool)
        ensures
            r == (self.finish_time().spec_nanos() > now.spec_nanos()),
    {
        self.transmission_finish_time.is_after(&now)
    }

    /// The time at which the channel will be free again.
    pub fn transmission_finish_time(&self) -> (r: Option<SimTime>)
        ensures
            r == Some(self.finish_time()),
    {
        Some(self.transmission_finish_time)
    }

    /// Whether a message of `len` bytes sent at `now` is refused: the channel
    /// is busy and either drops what arrives meanwhile or has no room left in
    /// its queue.
    pub open spec fn refuses(&self, now: SimTime, len: usize) -> bool {
        &&& self.finish_time().spec_nanos() > now.spec_nanos()
        &&& (self.spec_metrics().drop_behaviour == ChannelDropBehaviour::Drop
            || queued_bytes(self.queue()) + len > queue_limit(self.spec_metrics().drop_behaviour))
    }

    /// The finish time after a message that takes `transmission_delay`
    /// nanoseconds to put onto the medium was accepted at `now`.
    pub open spec fn finish_after_send(&self, now: SimTime, transmission_delay: u128) -> u128 {
        if self.finish_time().spec_nanos() > now.spec_nanos() || transmission_delay == 0 {
            self.finish_time().spec_nanos()
        } else {
            (now.spec_nanos() + transmission_delay) as u128
        }
    }

    /// Sends `msg` of `len` bytes at `now`. A free channel puts it onto the
    /// medium for `transmission_delay` nanoseconds (from the channel's bitrate),
    /// and it leaves after that and the latency; a busy channel drops it or
    /// queues it, as its drop behaviour says. After an accepted message, a
    /// non-empty queue asks for a wake-up at the finish time, unless one is
    /// already scheduled for that time.
    pub fn send(&mut self, now: SimTime, msg: Q, len: usize, transmission_delay: u128)
        -> (r: Result<SendOutcome<Q>, SendError<Q>>)
        requires
            old(self).wf(),
            now.spec_nanos() + duration_nanos(old(self).spec_metrics().latency) + transmission_delay <= u128::MAX,
        ensures
            final(self).wf(),
            final(self).spec_metrics() == old(self).spec_metrics(),
            old(self).within_limit() ==> final(self).within_limit(),
            r is Err <==> old(self).refuses(now, len),
            r matches Err(e) ==> {
                &&& e.msg == msg
                &&& final(self).queue() == old(self).queue()
                &&& final(self).finish_time() == old(self).finish_time()
                &&& final(self).scheduled_at() == old(self).scheduled_at()
            },
            r matches Ok(out) ==> {
                let busy = old(self).finish_time().spec_nanos() > now.spec_nanos();
                let tft = SimTime::from_nanos_spec(old(self).finish_after_send(now, transmission_delay));
                let notify = final(self).queue().len() > 0 && old(self).scheduled_at() != Some(tft);
                &&& final(self).queue() == if busy {
                    old(self).queue().push((msg, len))
                } else {
                    old(self).queue()
                }
                &&& final(self).finish_time() == tft
                &&& if busy {
                    out.exit is None
                } else {
                    out.exit matches Some(t) && t.msg == msg && t.arrival.spec_nanos()
                        == now.spec_nanos() + duration_nanos(old(self).spec_metrics().latency) + transmission_delay
                }
                &&& out.notify_at == if notify { Some(tft) } else { None }
                &&& final(self).scheduled_at() == if notify { Some(tft) } else { old(self).scheduled_at() }
            },
    {
        let ghost tft_spec = SimTime::from_nanos_spec(old(self).finish_after_send(now, transmission_delay));
        proof {
            SimTime::lemma_nanos(self.transmission_finish_time);
        }
        let busy = self.is_busy(now);
        let exit = if busy {
            match self.metrics.drop_behaviour {
                ChannelDropBehaviour::Drop => {
                    return Err(SendError { msg, reason: String::from_str("could not handle") });
                },
                ChannelDropBehaviour::Queue(limit) => {
                    let max = match limit {
                        Some(l) => l,
                        None => usize::MAX,
                    };
                    if len > max || self.acc_bytes > max - len {
                        return Err(SendError { msg, reason: String::from_str("could not handle: limit exceeded") });
                    }
                    let ghost old_q = self.buffer@;
                    self.buffer.push_back((msg, len));
                    proof {
                        assert(self.buffer@.drop_last() =~= old_q);
                        assert(self.buffer@.last() == (msg, len));
                    }
                    self.acc_bytes = self.acc_bytes + len;
                    None
                },
            }
        } else {
            let latency = duration_as_nanos(&self.metrics.latency);
            let arrival = SimTime::from_nanos(now.as_nanos() + latency + transmission_delay);
            if transmission_delay != 0 {
                self.transmission_finish_time = SimTime::from_nanos(now.as_nanos() + transmission_delay);
            }
            Some(Transmission { msg, arrival })
        };
        let tft = self.transmission_finish_time;
        assert(tft == tft_spec);
        let already = match self.scheduled {
            Some(t) => t.as_nanos() == tft.as_nanos(),
            None => false,
        };
        proof {
            if let Some(t) = self.scheduled {
                SimTime::lemma_nanos(t);
                SimTime::lemma_nanos(tft);
            }
            assert(already == (self.scheduled == Some(tft)));
        }
        let notify_at = if self.buffer.len() > 0 && !already {
            self.scheduled = Some(tft);
            Some(tft)
        } else {
            None
        };
        Ok(SendOutcome { exit, notify_at })
    }

    /// The channel's metrics.
    pub fn metrics(&self) -> (r: DatarateChannelMetrics)
        ensures
            r == self.spec_metrics(),
    {
        self.metrics
    }

    /// Whether sending at `now` with `transmission_delay` keeps the arrival
    /// time within the simulation's clock.
    pub open spec fn arrival_fits(&self, now: SimTime, transmission_delay: u128) -> bool {
        now.spec_nanos() + duration_nanos(self.spec_metrics().latency) + transmission_delay <= u128::MAX
    }

    /// What `send` does: the channel `after` and the result `r` of sending
    /// `msg` of `len` bytes at `now` on this channel.
    pub open spec fn sent(&self, after: &Self, now: SimTime, msg: Q, len: usize, transmission_delay: u128,
        r: Result<SendOutcome<Q>, SendError<Q>>) -> bool
    {
        &&& after.wf()
        &&& after.spec_metrics() == self.spec_metrics()
        &&& self.within_limit() ==> after.within_limit()
        &&& (r is Err <==> self.refuses(now, len))
        &&& r matches Err(e) ==> {
            &&& e.msg == msg
            &&& after.queue() == self.queue()
            &&& after.finish_time() == self.finish_time()
            &&& after.scheduled_at() == self.scheduled_at()
        }
        &&& r matches Ok(out) ==> {
            let busy = self.finish_time().spec_nanos() > now.spec_nanos();
            let tft = SimTime::from_nanos_spec(self.finish_after_send(now, transmission_delay));
            let notify = after.queue().len() > 0 && self.scheduled_at() != Some(tft);
            &&& after.queue() == if busy { self.queue().push((msg, len)) } else { self.queue() }
            &&& after.finish_time() == tft
            &&& if busy {
                out.exit is None
            } else {
                out.exit matches Some(t) && t.msg == msg && t.arrival.spec_nanos()
                    == now.spec_nanos() + duration_nanos(self.spec_metrics().latency) + transmission_delay
            }
            &&& out.notify_at == if notify { Some(tft) } else { None }
            &&& after.scheduled_at() == if notify { Some(tft) } else { self.scheduled_at() }
        }
    }

    /// Sends like `send` where the arrival time fits the simulation's clock;
    /// otherwise nothing happens and `None` comes back.
    pub fn try_send(&mut self, now: SimTime, msg: Q, len: usize, transmission_delay: u128)
        -> (r: Option<Result<SendOutcome<Q>, SendError<Q>>>)
        requires
            old(self).wf(),
        ensures
            r is None <==> !old(self).arrival_fits(now, transmission_delay),
            r is None ==> *final(self) == *old(self),
            r matches Some(res) ==> old(self).sent(&*final(self), now, msg, len, transmission_delay, res),
    {
        let latency = duration_as_nanos(&self.metrics.latency);
        match now.as_nanos().checked_add(latency) {
            None => None,
            Some(t) => match t.checked_add(transmission_delay) {
                None => None,
                Some(_) => Some(self.send(now, msg, len, transmission_delay)),
            },
        }
    }

    /// Handles the unbusy notification at `now`: when it is the time the
    /// channel becomes free, the schedule is cleared and the oldest queued
    /// message is handed back, to be sent again.
    pub fn unbusy_notify(&mut self, now: SimTime) -> (r: Option<(Q, usize)>)
        requires
            old(self).wf(),
        ensures
            final(self).wf(),
            final(self).spec_metrics() == old(self).spec_metrics(),
            final(self).finish_time() == old(self).finish_time(),
            old(self).within_limit() ==> final(self).within_limit(),
            if old(self).finish_time().spec_nanos() == now.spec_nanos() {
                &&& final(self).scheduled_at() is None
                &&& if old(self).queue().len() > 0 {
                    r == Some(old(self).queue()[0]) && final(self).queue() == old(self).queue().drop_first()
                } else {
                    r is None && final(self).queue() == old(self).queue()
                }
            } else {
                r is None && final(self).queue() == old(self).queue()
                    && final(self).scheduled_at() == old(self).scheduled_at()
            },
    {
        if self.transmission_finish_time.as_nanos() == now.as_nanos() {
            self.scheduled = None;
            if self.buffer.len() > 0 {
                let ghost old_q = self.buffer@;
                let front = self.buffer.pop_front();
                proof {
                    lemma_queued_bytes_front(old_q);
                }
                let front = front.unwrap();
                self.acc_bytes = self.acc_bytes - front.1;
                return Some(front);
            }
        }
        None
    }
}

/// A clone is a fresh channel with the same metrics: nothing queued, free
/// from the start, no notification scheduled.
impl<Q> Clone for DatarateChannel<Q> {
    fn clone(&self) -> (r: Self)
        ensures
            r.wf(),
            r.spec_metrics() == self.spec_metrics(),
            r.queue() == Seq::<(Q, usize)>::empty(),
            r.finish_time().spec_nanos() == 0,
            r.scheduled_at() is None,
    {
        Self::new(self.metrics)
    }
}

impl<Q> DatarateChannel<Q> {
    /// Splits the channel into the handlers of the two directions of a
    /// duplex link: this channel forward, a fresh one with the same metrics
    /// backward.
    pub fn into_duplex(self) -> (r: (Self, Self))
        ensures
            r.0 == self,
            r.1.wf(),
            r.1.spec_metrics() == self.spec_metrics(),
            r.1.queue() == Seq::<(Q, usize)>::empty(),
            r.1.finish_time().spec_nanos() == 0,
            r.1.scheduled_at() is None,
    {
        let bwk = self.clone();
        (self, bwk)
    }
}

/// Taking the oldest item off a queue takes its length off the queued bytes.
pub proof fn lemma_queued_bytes_front<Q>(q: Seq<(Q, usize)>)
    requires
        q.len() > 0,
    ensures
        queued_bytes(q) == q[0].1 + queued_bytes(q.drop_first()),
        queued_bytes(q.drop_first()) >= 0,
    decreases q.len(),
{
    lemma_queued_bytes_nonneg(q.drop_first());
    if q.len() == 1 {
        assert(q.drop_last().len() == 0);
        assert(q.drop_first().len() == 0);
        assert(queued_bytes(q.drop_last()) == 0);
        assert(queued_bytes(q.drop_first()) == 0);
        assert(q.last() == q[0]);
    } else {
        lemma_queued_bytes_front(q.drop_last());
        assert(q.drop_last().drop_first() =~= q.drop_first().drop_last());
        assert(q.drop_last()[0] == q[0]);
        assert(q.drop_first().last() == q.last());
    }
}

/// Queued bytes are never negative.
pub proof fn lemma_queued_bytes_nonneg<Q>(q: Seq<(Q, usize)>)
    ensures
        queued_bytes(q) >= 0,
    decreases q.len(),
{
    if q.len() > 0 {
        lemma_queued_bytes_nonneg(q.drop_last());
    }
}

} // verus!
