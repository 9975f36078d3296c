use mqtt_bench::message::parse_counter_payload_at;
use mqtt_bench::publisher::{
    done_signal, publisher_connect_options, publisher_subscriptions, Burst, BurstStep, Reaction, RunConfig,
};
use mqtt_bench::qos::QoS;
use mqtt_bench::receiver::Receiver;
use mqtt_bench::session::Step;
use mqtt_bench::timing::expected_messages;

fn configured(topic: &str, payload: &str) -> (RunConfig, Reaction) {
    let mut cfg = RunConfig { qos: 1, delay_ms: 50, message_size: 9 };
    let r = cfg.on_message(topic, payload);
    (cfg, r)
}

#[test]
fn settings_start_out_at_their_defaults() {
    assert_eq!(RunConfig::default(), RunConfig { qos: 0, delay_ms: 0, message_size: 1 });
}

#[test]
fn the_quality_of_service_is_set_and_limited() {
    for (payload, qos) in
        [("0", 0), ("1", 1), (" 2\n", 2), ("3", 2), ("255", 2), ("256", 0), ("x", 0), ("", 0), ("-1", 0)]
    {
        assert_eq!(
            configured("request/qos", payload),
            (RunConfig { qos, delay_ms: 50, message_size: 9 }, Reaction::QosSet),
            "{payload:?}"
        );
    }
}

#[test]
fn the_delay_is_set() {
    for (payload, delay_ms) in
        [("100", 100), ("\t7 ", 7), ("none", 0), ("18446744073709551615", u64::MAX), ("18446744073709551616", 0)]
    {
        assert_eq!(
            configured("request/delay", payload),
            (RunConfig { qos: 1, delay_ms, message_size: 9 }, Reaction::DelaySet)
        );
    }
}

#[test]
fn the_size_is_set() {
    for (payload, message_size) in [("4000", 4000), ("0", 0), ("big", 1), ("", 1)] {
        assert_eq!(
            configured("request/messagesize", payload),
            (RunConfig { qos: 1, delay_ms: 50, message_size }, Reaction::SizeSet)
        );
    }
}

#[test]
fn signals_leave_the_settings() {
    let cfg = RunConfig { qos: 1, delay_ms: 50, message_size: 9 };
    assert_eq!(configured("request/go", "start"), (cfg, Reaction::StartBurst));
    assert_eq!(configured("request/go", " start\r\n"), (cfg, Reaction::StartBurst));
    assert_eq!(configured("request/go", "stop"), (cfg, Reaction::Ignored));
    assert_eq!(configured("request/go", "done"), (cfg, Reaction::Ignored));
    assert_eq!(configured("request/config", "1:2:3"), (cfg, Reaction::UnexpectedTopic));
}

#[test]
fn subscribed_topics_are_expected() {
    let topics = ["request/qos", "request/delay", "request/messagesize", "request/go"];
    let subscriptions: Vec<Step> = topics
        .iter()
        .map(|t| Step::Subscribe { topic: t.to_string(), qos: QoS::AtLeastOnce })
        .collect();
    assert_eq!(publisher_subscriptions(), subscriptions);
    for t in topics {
        assert_ne!(configured(t, "1").1, Reaction::UnexpectedTopic);
    }
}

#[test]
fn the_done_signal_reaches_the_analyser() {
    match done_signal() {
        Step::Publish { topic, qos, retain, payload } => {
            assert_eq!((topic.as_str(), payload.as_str()), ("request/go", "done"));
            assert_eq!((qos, retain), (QoS::AtLeastOnce, false));
            let mut r = Receiver::new();
            r.on_publish_at(&topic, payload.as_bytes(), 0);
            assert!(r.done_received());
        }
        other => panic!("{other:?}"),
    }
}

#[test]
fn payloads_are_decoded_first() {
    let mut cfg = RunConfig::default();
    assert_eq!(cfg.on_publish("request/delay", b" 100 "), Reaction::DelaySet);
    assert_eq!(cfg.delay_ms, 100);
    assert_eq!(cfg.on_publish("request/delay", b"1\xff"), Reaction::DelaySet);
    assert_eq!(cfg.delay_ms, 0);
    assert_eq!(cfg.on_publish("request/messagesize", "\u{3000}12\u{a0}".as_bytes()), Reaction::SizeSet);
    assert_eq!(cfg.message_size, 12);
    assert_eq!(cfg.on_publish("request/go", b"start\xff"), Reaction::Ignored);
    assert_eq!(cfg.on_publish("request/go", b"start"), Reaction::StartBurst);
}

#[test]
fn the_publisher_connects_to_the_local_broker() {
    let o = publisher_connect_options();
    assert_eq!((o.client_id.as_str(), o.host.as_str(), o.port), ("rust-publisher", "localhost", 1883));
    assert_eq!(o.keep_alive_secs, 30);
    assert!(!o.clean_session);
    assert_eq!(o.request_capacity, 65_535);
}

#[test]
fn a_burst_follows_its_settings() {
    let b = Burst::new(&RunConfig { qos: 2, delay_ms: 100, message_size: 3 });
    assert_eq!(b.topic, "counter/2/100/3");
    assert_eq!(b.qos, QoS::ExactlyOnce);
    assert_eq!(b.delay_ms, Some(100));
    assert_eq!(b.padding, b"xxx".to_vec());
    assert_eq!(b.counter, 0);
    assert_eq!(Burst::new(&RunConfig::default()).delay_ms, None);
}

#[test]
fn messages_are_numbered_from_zero() {
    let mut b = Burst::new(&RunConfig { qos: 0, delay_ms: 0, message_size: 2 });
    assert_eq!(b.next_message_at(1000), b"0:1000:xx".to_vec());
    assert_eq!(b.next_message_at(1001), b"1:1001:xx".to_vec());
    assert_eq!(b.counter, 2);
}

#[test]
fn messages_carry_the_time_of_the_clock() {
    let mut b = Burst::new(&RunConfig { qos: 0, delay_ms: 20, message_size: 1 });
    match b.step(0) {
        Ok(BurstStep::Send { payload, retain, pause_ms }) => {
            assert!(!retain);
            let m = parse_counter_payload_at(&payload, 0).unwrap();
            assert_eq!(m.seq, 0);
            assert!(m.sent_us > 1_600_000_000_000_000);
            assert_eq!(pause_ms, Some(20));
        }
        other => panic!("{other:?}"),
    }
    assert_eq!(b.counter, 1);
    assert_eq!(b.step(30_000_000), Ok(BurstStep::Finished { sent: 1, signal: done_signal() }));
}

#[test]
fn a_burst_ends_when_its_time_has_passed() {
    let mut b = Burst::new(&RunConfig { qos: 0, delay_ms: 0, message_size: 1 });
    assert_eq!(
        b.step_at(29_999_999, 77),
        BurstStep::Send { payload: b"0:77:x".to_vec(), retain: false, pause_ms: None }
    );
    assert_eq!(b.step_at(30_000_000, 78), BurstStep::Finished { sent: 1, signal: done_signal() });
    assert_eq!(b.step_at(u128::MAX, 79), BurstStep::Finished { sent: 1, signal: done_signal() });
    assert_eq!(b.counter, 1);
}

fn throttled(delay_ms: u64, overrun_us: u128) -> u64 {
    let mut b = Burst::new(&RunConfig { qos: 0, delay_ms, message_size: 1 });
    let mut elapsed = 0;
    while let BurstStep::Send { pause_ms, .. } = b.step_at(elapsed, elapsed) {
        elapsed += 1000 * pause_ms.unwrap() as u128 + overrun_us;
    }
    b.counter
}

#[test]
fn a_throttled_burst_sends_what_is_expected() {
    for delay in [1u64, 8, 100, 30_000] {
        assert_eq!(Some(throttled(delay, 0) as usize), expected_messages(delay));
    }
    assert_eq!(throttled(100, 0), 300);
}

#[test]
fn a_throttled_burst_is_bounded() {
    assert_eq!(throttled(7, 0), 4286);
    assert_eq!(throttled(30_001, 0), 1);
    for delay in [7u64, 100, 999, 30_001] {
        for overrun in [0, 1, 12_345] {
            assert!(throttled(delay, overrun) <= (30_000 + delay - 1) / delay);
        }
    }
}

#[test]
fn a_burst_is_counted_whole() {
    let mut b = Burst::new(&RunConfig { qos: 0, delay_ms: 0, message_size: 1 });
    let mut r = Receiver::new();
    for k in 0..100u128 {
        let payload = b.next_message_at(k);
        r.on_publish_at(&b.topic, &payload, k + 5);
    }
    let messages = r.finish().unwrap();
    assert_eq!(messages.len(), 100);
    for (k, m) in messages.iter().enumerate() {
        assert_eq!((m.seq, m.sent_us, m.latency_us), (k as u64, k as u128, 5));
    }
}
