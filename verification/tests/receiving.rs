use mqtt_bench::message::{counter_payload, Message};
use mqtt_bench::receiver::{collect, CollectEvent, PublishOutcome, Receiver, BATCH_SIZE};

fn message(seq: u64) -> Message {
    Message { seq, sent_us: 10, recv_us: 15, latency_us: 5 }
}

fn send(r: &mut Receiver, seq: u64) -> PublishOutcome {
    r.on_publish_at("counter/0/0/1", &counter_payload(seq, 10, b"x"), 15)
}

#[test]
fn readiness_is_reported_once() {
    let mut r = Receiver::new();
    assert!(!r.on_suback());
    assert!(r.on_suback());
    assert!(!r.on_suback());
    assert!(!r.on_suback());
}

#[test]
fn only_the_done_signal_ends_a_run() {
    let mut r = Receiver::new();
    for signal in [&b"start"[..], b"stop", b"done ", b"Done", b"", b"1:2:x"] {
        assert_eq!(r.on_publish_at("request/go", signal, 0), PublishOutcome::Nothing);
        assert!(!r.done_received());
    }
    assert_eq!(r.on_publish_at("counter/0/0/1", b"done", 0), PublishOutcome::Nothing);
    assert_eq!(r.on_publish_at("request/stop", b"done", 0), PublishOutcome::Nothing);
    assert!(!r.done_received());
    assert_eq!(r.on_publish_at("request/go", b"done", 0), PublishOutcome::Done);
    assert!(r.done_received());
    assert_eq!(r.finish(), None);
}

#[test]
fn counter_messages_are_gathered() {
    let mut r = Receiver::new();
    assert_eq!(send(&mut r, 0), PublishOutcome::Nothing);
    assert_eq!(r.on_publish_at("counter/0/0/1", b"malformed", 15), PublishOutcome::Nothing);
    assert_eq!(r.on_publish_at("other/0", b"5:10:x", 15), PublishOutcome::Nothing);
    assert_eq!(send(&mut r, 1), PublishOutcome::Nothing);
    assert_eq!(r.finish(), Some(vec![message(0), message(1)]));
}

#[test]
fn a_receiver_without_messages_hands_on_nothing() {
    assert_eq!(Receiver::new().finish(), None);
}

#[test]
fn no_message_is_lost_between_batches() {
    let total = 2 * BATCH_SIZE as u64 + 3;
    let mut r = Receiver::new();
    let mut messages = Vec::new();
    let mut batches = 0;
    for seq in 0..total {
        match send(&mut r, seq) {
            PublishOutcome::Batch(batch) => {
                assert_eq!(batch.len(), BATCH_SIZE);
                batches += 1;
                assert!(collect(&mut messages, CollectEvent::Batch(batch)));
            }
            PublishOutcome::Nothing => {}
            PublishOutcome::Done => panic!("not done"),
        }
    }
    assert_eq!(batches, 2);
    if let Some(rest) = r.finish() {
        assert!(collect(&mut messages, CollectEvent::Batch(rest)));
    }
    assert_eq!(messages, (0..total).map(message).collect::<Vec<_>>());
}

#[test]
fn gathering_ends_with_the_window_or_the_connection() {
    let mut messages = vec![message(0)];
    assert!(!collect(&mut messages, CollectEvent::Closed));
    assert!(!collect(&mut messages, CollectEvent::WindowOver));
    assert_eq!(messages, vec![message(0)]);
}

#[test]
fn messages_are_stamped_by_the_clock() {
    let mut r = Receiver::new();
    assert_eq!(r.on_publish("counter/2/0/1", b"8:10:x"), Ok(PublishOutcome::Nothing));
    assert_eq!(r.on_publish("request/go", b"done"), Ok(PublishOutcome::Done));
    assert_eq!(r.on_publish("request/go", b"stop"), Ok(PublishOutcome::Nothing));
    assert_eq!(r.on_publish("elsewhere", b"9:10:x"), Ok(PublishOutcome::Nothing));
    let batch = r.finish().unwrap();
    assert_eq!(batch.len(), 1);
    assert_eq!((batch[0].seq, batch[0].sent_us), (8, 10));
    assert!(batch[0].recv_us > 1_600_000_000_000_000);
    assert_eq!(batch[0].latency_us, batch[0].recv_us as i64 - 10);
}
