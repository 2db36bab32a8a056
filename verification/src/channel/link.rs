//! A one-directional delayed link that is busy while it puts a message onto
//! the medium, and drops or queues what arrives meanwhile.
use vstd::prelude::*;
use super::{Buffer, ChannelDropBehaviour};
use super::datarate::queued_bytes;
use super::metrics::ChannelMetrics;
use crate::common::path::ObjectPath;
use crate::time::SimTime;

verus! {

/// Something told of every message a link starts to transmit.
pub trait ChannelProbe<Q> {
    /// Reacts to `msg` being put onto a link with the metrics `chan`.
    fn on_message_transmit(&mut self, chan: &ChannelMetrics, msg: &Q);
}

/// A probe that ignores what it is told.
#[derive(Debug)]
pub struct DummyChannelProbe;

impl<Q> ChannelProbe<Q> for DummyChannelProbe {
    fn on_message_transmit(&mut self, chan: &ChannelMetrics, msg: &Q) {
    }
}

/// What the simulation has to do after a message was handed to a link.
#[derive(Debug)]
pub enum SendAction<Q> {
    /// The link was busy and dropped the message.
    Dropped(Q),
    /// The link was busy and queued the message.
    Queued,
    /// The link puts the message onto the medium.
    Transmit {
        /// The message.
        msg: Q,
        /// When the message reaches the next gate.
        arrival: SimTime,
        /// When the link is done putting it onto the medium and has to be
        /// told that it is free again.
        unbusy_at: SimTime,
    },
}

/// A representation of a one directional delayed link.
#[derive(Debug)]
pub struct Channel<Q, P> {
    path: ObjectPath,
    metrics: ChannelMetrics,
    busy: bool,
    transmission_finish_time: SimTime,
    buffer: Buffer<Q>,
    probe: P,
}

impl<Q, P: ChannelProbe<Q>> Channel<Q, P> {
    /// The waiting messages are counted.
    pub closed spec fn wf(&self) -> bool {
        self.buffer.wf()
    }

    /// The path of the link.
    pub closed spec fn spec_path(&self) -> ObjectPath {
        self.path
    }

    /// The capabilities of the link.
    pub closed spec fn spec_metrics(&self) -> ChannelMetrics {
        self.metrics
    }

    /// Whether the link is putting a message onto the medium.
    pub closed spec fn spec_busy(&self) -> bool {
        self.busy
    }

    /// When the link is done with the message on the medium; zero while free.
    pub closed spec fn finish_time(&self) -> SimTime {
        self.transmission_finish_time
    }

    /// The waiting messages with their lengths, oldest first.
    pub closed spec fn queue(&self) -> Seq<(Q, usize)> {
        self.buffer.queue()
    }

    /// The probe told of every message the link starts to transmit.
    pub closed spec fn spec_probe(&self) -> P {
        self.probe
    }

    /// The waiting messages fit in the queue the drop behaviour allows.
    pub open spec fn within_limit(&self) -> bool {
        queued_bytes(self.queue()) <= super::datarate::queue_limit(self.spec_metrics().drop_behaviour)
    }

    /// A free link at `path` with the capabilities `metrics`, reporting to
    /// `probe`.
    pub fn new(path: ObjectPath, metrics: ChannelMetrics, probe: P) -> (r: Self)
        ensures
            r.wf(),
            r.spec_path() == path,
            r.spec_metrics() == metrics,
            !r.spec_busy(),
            r.finish_time().spec_nanos() == 0,
            r.queue() == Seq::<(Q, usize)>::empty(),
            r.within_limit(),
            r.spec_probe() == probe,
    {
        Channel {
            path,
            metrics,
            busy: false,
            transmission_finish_time: SimTime::zero(),
            buffer: Buffer::new(),
            probe,
        }
    }

    /// The object path of the channel.
    pub fn path(&self) -> (r: &ObjectPath)
        ensures
            *r == self.spec_path(),
    {
        &self.path
    }

    /// A description of the channels capabilities, independent from its
    /// current state.
    pub fn metrics(&self) -> (r: ChannelMetrics)
        ensures
            r == self.spec_metrics(),
    {
        self.metrics
    }

    /// Whether the channel is putting a message onto the medium. A free link
    /// may still carry messages: all their bits are on the medium.
    pub fn is_busy(&self) -> (r: bool)
        ensures
            r == self.spec_busy(),
    {
        self.busy
    }

    /// When the message being put onto the medium is fully on it, or zero
    /// when none is.
    pub fn transmission_finish_time(&self) -> (r: SimTime)
        ensures
            r == self.finish_time(),
    {
        self.transmission_finish_time
    }

    /// Replaces the probe.
    pub fn attach_probe(&mut self, probe: P)
        ensures
            final(self).spec_probe() == probe,
            final(self).wf() == old(self).wf(),
            final(self).spec_path() == old(self).spec_path(),
            final(self).spec_metrics() == old(self).spec_metrics(),
            final(self).spec_busy() == old(self).spec_busy(),
            final(self).finish_time() == old(self).finish_time(),
            final(self).queue() == old(self).queue(),
    {
        self.probe = probe;
    }

    /// Marks the link busy until `sim_time`.
    pub fn set_busy_until(&mut self, sim_time: SimTime)
        ensures
            final(self).wf() == old(self).wf(),
            final(self).spec_busy(),
            final(self).finish_time() == sim_time,
            final(self).spec_path() == old(self).spec_path(),
            final(self).spec_metrics() == old(self).spec_metrics(),
            final(self).queue() == old(self).queue(),
    {
        self.busy = true;
        self.transmission_finish_time = sim_time;
    }

    /// Hands `msg` of `len` bytes to the link at `now`. A busy link drops or
    /// queues it, as its drop behaviour says. A free link tells its probe,
    /// becomes busy for `busy_for` nanoseconds (the time to put the message
    /// onto the medium) and lets the message arrive after `travel`
    /// nanoseconds (that time, the latency and any jitter).
    pub fn send_message(&mut self, now: SimTime, msg: Q, len: usize, travel: u128, busy_for: u128) -> (r: SendAction<Q>)
        requires
            old(self).wf(),
            now.spec_nanos() + travel <= u128::MAX,
            now.spec_nanos() + busy_for <= u128::MAX,
        ensures
            final(self).wf(),
            final(self).spec_path() == old(self).spec_path(),
            final(self).spec_metrics() == old(self).spec_metrics(),
            old(self).within_limit() ==> final(self).within_limit(),
            old(self).spec_busy() ==> {
                let behaviour = old(self).spec_metrics().drop_behaviour;
                let refused = behaviour == ChannelDropBehaviour::Drop
                    || queued_bytes(old(self).queue()) + len > super::datarate::queue_limit(behaviour);
                &&& final(self).spec_busy()
                &&& final(self).finish_time() == old(self).finish_time()
                &&& refused ==> r == SendAction::Dropped(msg) && final(self).queue() == old(self).queue()
                &&& !refused ==> r == SendAction::<Q>::Queued && final(self).queue() == old(self).queue().push((msg, len))
            },
            !old(self).spec_busy() ==> {
                &&& final(self).spec_busy()
                &&& final(self).finish_time().spec_nanos() == now.spec_nanos() + busy_for
                &&& final(self).queue() == old(self).queue()
                &&& r matches SendAction::Transmit { msg: m, arrival, unbusy_at }
                    && m == msg
                    && arrival.spec_nanos() == now.spec_nanos() + travel
                    && unbusy_at == final(self).finish_time()
            },
    {
        if self.busy {
            let behaviour = self.metrics.drop_behaviour;
            let ghost old_q = self.buffer.queue();
            let handled = behaviour.handle(&mut self.buffer, msg, len);
            proof {
                if handled is None {
                    assert(self.buffer.queue().drop_last() =~= old_q);
                }
            }
            match handled {
                Some(back) => SendAction::Dropped(back),
                None => SendAction::Queued,
            }
        } else {
            self.probe.on_message_transmit(&self.metrics, &msg);
            let finish = SimTime::from_nanos(now.as_nanos() + busy_for);
            self.set_busy_until(finish);
            let arrival = SimTime::from_nanos(now.as_nanos() + travel);
            SendAction::Transmit { msg, arrival, unbusy_at: finish }
        }
    }

    /// Frees the link: it is no longer busy, its finish time is zero again,
    /// and the oldest waiting message, if any, comes back to be sent anew.
    pub fn unbusy(&mut self) -> (r: Option<(Q, usize)>)
        requires
            old(self).wf(),
        ensures
            final(self).wf(),
            !final(self).spec_busy(),
            final(self).finish_time().spec_nanos() == 0,
            final(self).spec_path() == old(self).spec_path(),
            final(self).spec_metrics() == old(self).spec_metrics(),
            old(self).queue().len() == 0 ==> r is None && final(self).queue() == old(self).queue(),
            old(self).queue().len() > 0 ==> r == Some(old(self).queue()[0])
                && final(self).queue() == old(self).queue().drop_first(),
            old(self).within_limit() ==> final(self).within_limit(),
    {
        self.busy = false;
        self.transmission_finish_time = SimTime::zero();
        let ghost old_q = self.buffer.queue();
        proof {
            if old_q.len() > 0 {
                super::datarate::lemma_queued_bytes_front(old_q);
            }
        }
        self.buffer.dequeue()
    }
}

} // verus!
