//! A channel that only delays messages.
use vstd::prelude::*;
use std::time::Duration;
use crate::time::{SimTime, duration_nanos, duration_as_nanos};

verus! {

/// A channel that introduces a delay before forwarding messages.
#[derive(Debug, Clone, Copy)]
pub struct DelayChannel {
    /// The delay duration.
    pub delay: Duration,
}

impl DelayChannel {
    /// Creates a new `DelayChannel` with the specified delay.
    pub fn new(delay: Duration) -> (r: Self)
        ensures
            r.delay == delay,
    {
        DelayChannel { delay }
    }

    /// A delay channel is never busy.
    pub fn transmission_finish_time(&self) -> (r: Option<SimTime>)
        ensures
            r is None,
    {
        None
    }

    /// When a message sent at `now` leaves the channel.
    pub fn send(&self, now: SimTime) -> (r: SimTime)
        requires
            now.spec_nanos() + duration_nanos(self.delay) <= u128::MAX,
        ensures
            r.spec_nanos() == now.spec_nanos() + duration_nanos(self.delay),
    {
        SimTime::from_nanos(now.as_nanos() + duration_as_nanos(&self.delay))
    }
}

impl DelayChannel {
    /// When a message sent at `now` leaves the channel, if that time fits
    /// the simulation's clock.
    pub fn try_send(&self, now: SimTime) -> (r: Option<SimTime>)
        ensures
            r is None <==> now.spec_nanos() + duration_nanos(self.delay) > u128::MAX,
            r matches Some(t) ==> t.spec_nanos() == now.spec_nanos() + duration_nanos(self.delay),
    {
        match now.as_nanos().checked_add(duration_as_nanos(&self.delay)) {
            Some(t) => Some(SimTime::from_nanos(t)),
            None => None,
        }
    }

    /// The handlers of the two directions of a duplex link: each delays by
    /// the same amount.
    pub fn into_duplex(self) -> (r: (Self, Self))
        ensures
            r.0.delay == self.delay,
            r.1.delay == self.delay,
    {
        (self, self)
    }
}

} // verus!
