use des::channel::datarate::{DatarateChannel, DatarateChannelMetrics};
use des::channel::delay::DelayChannel;
use des::channel::link::{Channel, DummyChannelProbe, SendAction};
use des::channel::metrics::ChannelMetrics;
use des::channel::{Buffer, ChannelDropBehaviour};
use des::common::path::ObjectPath;
use des::time::SimTime;
use std::time::Duration;

fn queueing(limit: Option<usize>) -> DatarateChannelMetrics {
    DatarateChannelMetrics::new(
        8_000,
        Duration::from_nanos(100),
        Duration::ZERO,
        ChannelDropBehaviour::Queue(limit),
    )
}

#[test]
fn datarate_free_channel_transmits() {
    let mut chan: DatarateChannel<&str> = DatarateChannel::new(queueing(Some(100)));
    assert!(!chan.is_busy(SimTime::from_nanos(0)));
    let out = chan.send(SimTime::from_nanos(0), "a", 10, 50).unwrap();
    let exit = out.exit.unwrap();
    assert_eq!(exit.msg, "a");
    assert_eq!(exit.arrival.as_nanos(), 150);
    assert!(out.notify_at.is_none());
    assert!(chan.is_busy(SimTime::from_nanos(49)));
    assert!(!chan.is_busy(SimTime::from_nanos(50)));
    assert_eq!(chan.transmission_finish_time().unwrap().as_nanos(), 50);
}

#[test]
fn datarate_busy_channel_queues_up_to_its_limit() {
    let mut chan: DatarateChannel<&str> = DatarateChannel::new(queueing(Some(100)));
    chan.send(SimTime::from_nanos(0), "a", 10, 50).unwrap();

    let out = chan.send(SimTime::from_nanos(5), "b", 60, 50).unwrap();
    assert!(out.exit.is_none());
    assert_eq!(out.notify_at.unwrap().as_nanos(), 50);
    assert_eq!(chan.queue_length(), 60);
    assert_eq!(chan.queue_length_packets(), 1);

    let out = chan.send(SimTime::from_nanos(6), "c", 40, 50).unwrap();
    assert!(out.exit.is_none());
    assert!(out.notify_at.is_none());
    assert_eq!(chan.queue_length(), 100);

    let err = chan.send(SimTime::from_nanos(7), "d", 1, 50).unwrap_err();
    assert_eq!(err.msg, "d");
    assert_eq!(err.reason, "could not handle: limit exceeded");
    assert_eq!(chan.queue_length(), 100);
    assert_eq!(chan.queue_length_packets(), 2);
}

#[test]
fn datarate_unbusy_hands_back_the_oldest() {
    let mut chan: DatarateChannel<&str> = DatarateChannel::new(queueing(None));
    chan.send(SimTime::from_nanos(0), "a", 10, 50).unwrap();
    chan.send(SimTime::from_nanos(1), "b", 20, 50).unwrap();
    chan.send(SimTime::from_nanos(2), "c", 30, 50).unwrap();

    assert!(chan.unbusy_notify(SimTime::from_nanos(49)).is_none());
    assert_eq!(chan.queue_length_packets(), 2);

    assert_eq!(chan.unbusy_notify(SimTime::from_nanos(50)), Some(("b", 20)));
    assert_eq!(chan.queue_length(), 30);
    assert_eq!(chan.queue_length_packets(), 1);
}

#[test]
fn datarate_dropping_channel_refuses_while_busy() {
    let metrics = DatarateChannelMetrics::new(
        8_000,
        Duration::ZERO,
        Duration::ZERO,
        ChannelDropBehaviour::Drop,
    );
    let mut chan: DatarateChannel<u8> = DatarateChannel::new(metrics);
    chan.send(SimTime::from_nanos(10), 1, 10, 5).unwrap();
    let err = chan.send(SimTime::from_nanos(12), 2, 10, 5).unwrap_err();
    assert_eq!(err.msg, 2);
    assert_eq!(err.reason, "could not handle");
    assert!(chan.send(SimTime::from_nanos(15), 3, 10, 5).is_ok());
}

#[test]
fn datarate_zero_delay_keeps_channel_free() {
    let mut chan: DatarateChannel<u8> = DatarateChannel::new(queueing(Some(10)));
    let out = chan.send(SimTime::from_nanos(7), 1, 10, 0).unwrap();
    assert_eq!(out.exit.unwrap().arrival.as_nanos(), 107);
    assert!(!chan.is_busy(SimTime::from_nanos(7)));
}

#[test]
fn delay_channel_adds_its_delay() {
    let chan = DelayChannel::new(Duration::from_millis(2));
    assert!(chan.transmission_finish_time().is_none());
    assert_eq!(chan.send(SimTime::from_nanos(5)).as_nanos(), 2_000_005);
}

#[test]
fn drop_behaviour_handles_arrivals() {
    let mut buffer: Buffer<char> = Buffer::new();
    assert_eq!(ChannelDropBehaviour::Drop.handle(&mut buffer, 'a', 1), Some('a'));
    assert_eq!(buffer.len(), 0);

    let queue = ChannelDropBehaviour::Queue(Some(5));
    assert_eq!(queue.handle(&mut buffer, 'b', 3), None);
    assert_eq!(queue.handle(&mut buffer, 'c', 3), Some('c'));
    assert_eq!(queue.handle(&mut buffer, 'd', 2), None);
    assert_eq!(buffer.acc_bytes(), 5);
    assert_eq!(buffer.dequeue(), Some(('b', 3)));
    assert_eq!(buffer.acc_bytes(), 2);
    assert_eq!(ChannelDropBehaviour::default(), ChannelDropBehaviour::Drop);
}

fn link(behaviour: ChannelDropBehaviour) -> Channel<&'static str, DummyChannelProbe> {
    let path = ObjectPath::new(String::from("net/a.b")).unwrap();
    let metrics = ChannelMetrics::new(1_000, Duration::from_nanos(10), Duration::ZERO, behaviour);
    Channel::new(path, metrics, DummyChannelProbe)
}

#[test]
fn link_transmits_when_free() {
    let mut chan = link(ChannelDropBehaviour::Drop);
    assert!(!chan.is_busy());
    assert_eq!(chan.path().path(), "net/a.b");
    match chan.send_message(SimTime::from_nanos(100), "m", 4, 30, 20) {
        SendAction::Transmit { msg, arrival, unbusy_at } => {
            assert_eq!(msg, "m");
            assert_eq!(arrival.as_nanos(), 130);
            assert_eq!(unbusy_at.as_nanos(), 120);
        }
        other => panic!("unexpected {other:?}"),
    }
    assert!(chan.is_busy());
    assert_eq!(chan.transmission_finish_time().as_nanos(), 120);
}

#[test]
fn link_drops_or_queues_while_busy() {
    let mut dropping = link(ChannelDropBehaviour::Drop);
    dropping.send_message(SimTime::from_nanos(0), "a", 4, 30, 20);
    assert!(matches!(
        dropping.send_message(SimTime::from_nanos(1), "b", 4, 30, 20),
        SendAction::Dropped("b")
    ));

    let mut queueing = link(ChannelDropBehaviour::Queue(Some(6)));
    queueing.send_message(SimTime::from_nanos(0), "a", 4, 30, 20);
    assert!(matches!(
        queueing.send_message(SimTime::from_nanos(1), "b", 4, 30, 20),
        SendAction::Queued
    ));
    assert!(matches!(
        queueing.send_message(SimTime::from_nanos(2), "c", 4, 30, 20),
        SendAction::Dropped("c")
    ));
    assert_eq!(queueing.unbusy(), Some(("b", 4)));
    assert!(!queueing.is_busy());
    assert_eq!(queueing.transmission_finish_time().as_nanos(), 0);
    assert_eq!(queueing.unbusy(), None);
    assert!(matches!(
        queueing.send_message(SimTime::from_nanos(3), "d", 4, 30, 20),
        SendAction::Transmit { .. }
    ));
}

#[test]
fn duplex_gives_a_fresh_backward_channel() {
    let mut chan: DatarateChannel<u8> = DatarateChannel::new(queueing(Some(50)));
    chan.send(SimTime::from_nanos(0), 1, 10, 40).unwrap();
    chan.send(SimTime::from_nanos(1), 2, 10, 40).unwrap();
    let (fwd, bwd) = chan.into_duplex();
    assert_eq!(fwd.queue_length_packets(), 1);
    assert!(fwd.is_busy(SimTime::from_nanos(1)));
    assert_eq!(bwd.queue_length_packets(), 0);
    assert!(!bwd.is_busy(SimTime::from_nanos(1)));
    assert_eq!(bwd.transmission_finish_time().unwrap().as_nanos(), 0);

    let delay = DelayChannel::new(Duration::from_nanos(3));
    let (a, b) = delay.into_duplex();
    assert_eq!(a.delay, b.delay);
}

#[test]
fn try_send_refuses_clock_overflow() {
    let mut chan: DatarateChannel<u8> = DatarateChannel::new(queueing(None));
    assert!(chan.try_send(SimTime::from_nanos(u128::MAX - 50), 1, 1, 10).is_none());
    assert!(!chan.is_busy(SimTime::from_nanos(0)));
    let out = chan.try_send(SimTime::from_nanos(5), 1, 1, 10).unwrap().unwrap();
    assert_eq!(out.exit.unwrap().arrival.as_nanos(), 115);
    assert_eq!(chan.metrics().bitrate, 8_000);

    let delay = DelayChannel::new(Duration::from_nanos(10));
    assert!(delay.try_send(SimTime::from_nanos(u128::MAX - 5)).is_none());
    assert_eq!(delay.try_send(SimTime::from_nanos(5)).unwrap().as_nanos(), 15);
}
