//! The capabilities of a one-directional delayed link.
use vstd::prelude::*;
use std::time::Duration;
use super::ChannelDropBehaviour;

verus! {

/// Metrics that define a channels capabilitites.
#[derive(Debug, Clone, Copy, PartialEq)]
pub struct ChannelMetrics {
    /// The maximum throughput of the channel in bit/s
    pub bitrate: usize,
    /// The latency a message endures while transversing a channel.
    pub latency: Duration,
    /// The variance in latency.
    pub jitter: Duration,
    /// The size of the channels queue in bytes.
    pub drop_behaviour: ChannelDropBehaviour,
}

impl ChannelMetrics {
    /// Creates a new instance of channel metrics.
    pub fn new(
        bitrate: usize,
        latency: Duration,
        jitter: Duration,
        drop_behaviour: ChannelDropBehaviour,
    ) -> (r: Self)
        ensures
            r.bitrate == bitrate,
            r.latency == latency,
            r.jitter == jitter,
            r.drop_behaviour == drop_behaviour,
    {
        Self { bitrate, latency, jitter, drop_behaviour }
    }
}

} // verus!
