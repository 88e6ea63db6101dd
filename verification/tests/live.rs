use owners_ledger::live::{PlaySessionStreams, StreamEvent, CHANNEL_CAPACITY};
use tokio::sync::broadcast::{channel, Receiver, Sender};

type Streams = PlaySessionStreams<Sender<StreamEvent>>;

fn subscribe(streams: &mut Streams, session_id: &str) -> Receiver<StreamEvent> {
    streams.subscribe(session_id, || channel(CHANNEL_CAPACITY).0).subscribe()
}

fn send(sender: &Sender<StreamEvent>, event: StreamEvent) -> bool {
    sender.send(event).is_ok()
}

fn checkin(streams: &mut Streams, session_id: &str, payload: &str) {
    streams.publish_checkin(session_id, payload.to_string(), send);
}

fn payload(event: StreamEvent) -> String {
    match event {
        StreamEvent::CheckinUpdated(payload) => payload,
        StreamEvent::SessionEnded => panic!("expected a check-in"),
    }
}

#[test]
fn publishing_with_no_subscriber_is_a_harmless_no_op() {
    let mut streams = Streams::default();
    streams.publish_checkin("nobody-is-watching", "{}".to_string(), |_, _| unreachable!());
    streams.publish_session_ended("nobody-is-watching", |_, _| unreachable!());
}

#[test]
fn a_subscriber_receives_checkin_and_session_ended_events_in_order() {
    let mut streams = Streams::default();
    let mut rx = subscribe(&mut streams, "session-1");

    checkin(&mut streams, "session-1", "payload-a");
    streams.publish_session_ended("session-1", send);

    assert_eq!(payload(rx.try_recv().unwrap()), "payload-a");
    assert!(matches!(rx.try_recv().unwrap(), StreamEvent::SessionEnded));
}

#[test]
fn events_for_one_session_never_reach_a_subscriber_of_another() {
    let mut streams = Streams::default();
    let mut rx_a = subscribe(&mut streams, "session-a");
    let mut rx_b = subscribe(&mut streams, "session-b");

    checkin(&mut streams, "session-a", "only-for-a");

    assert_eq!(payload(rx_a.try_recv().unwrap()), "only-for-a");
    assert!(rx_b.try_recv().is_err());
}

#[test]
fn a_fresh_subscribe_after_every_receiver_dropped_does_not_see_stale_events() {
    let mut streams = Streams::default();
    {
        let _rx = subscribe(&mut streams, "session-1");
        checkin(&mut streams, "session-1", "before-reconnect");
    }
    // Nobody is there any more: the channel goes.
    checkin(&mut streams, "session-1", "also-before-reconnect");

    let mut rx = subscribe(&mut streams, "session-1");
    checkin(&mut streams, "session-1", "after-reconnect");
    assert_eq!(payload(rx.try_recv().unwrap()), "after-reconnect");
}

#[test]
fn two_watchers_of_a_session_share_its_channel() {
    let mut streams = Streams::new();
    let mut first = subscribe(&mut streams, "session-1");
    let mut second = streams.subscribe("session-1", || unreachable!()).subscribe();
    checkin(&mut streams, "session-1", "for both");
    assert_eq!(payload(first.try_recv().unwrap()), "for both");
    assert_eq!(payload(second.try_recv().unwrap()), "for both");
}
