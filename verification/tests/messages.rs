use mqtt_bench::clock::{micros_since_epoch, now_us, ClockBeforeEpoch};
use mqtt_bench::message::{
    counter_payload, latency_us, parse_counter_payload, parse_counter_payload_at, Message,
};
use std::time::{Duration, UNIX_EPOCH};

#[test]
fn clock_readings_are_counted_in_microseconds() {
    let t = UNIX_EPOCH + Duration::from_nanos(1_500_999);
    assert_eq!(micros_since_epoch(&t), Ok(1_500));
    assert_eq!(micros_since_epoch(&UNIX_EPOCH), Ok(0));
}

#[test]
fn clock_before_the_epoch_is_an_error() {
    let t = UNIX_EPOCH - Duration::from_secs(1);
    assert_eq!(micros_since_epoch(&t), Err(ClockBeforeEpoch));
}

#[test]
fn the_clock_does_not_stand_at_the_epoch() {
    let a = now_us().unwrap();
    let b = now_us().unwrap();
    assert!(a > 1_600_000_000_000_000);
    assert!(b >= a || a - b < 1_000_000_000);
}

#[test]
fn payload_is_written() {
    assert_eq!(counter_payload(7, 1_700_000_000_000_000, b"xx"), b"7:1700000000000000:xx".to_vec());
    assert_eq!(counter_payload(0, 0, b""), b"0:0:".to_vec());
}

#[test]
fn payload_is_read() {
    assert_eq!(
        parse_counter_payload_at(b"7:1000:xxxx", 1500),
        Some(Message { seq: 7, sent_us: 1000, recv_us: 1500, latency_us: 500 })
    );
}

#[test]
fn padding_is_optional_and_may_hold_anything() {
    let expected = Some(Message { seq: 1, sent_us: 2, recv_us: 3, latency_us: 1 });
    assert_eq!(parse_counter_payload_at(b"1:2:", 3), expected);
    assert_eq!(parse_counter_payload_at(b"1:2:::9:\xff\x00", 3), expected);
    assert_eq!(parse_counter_payload_at(b"+1:02:x", 3), expected);
}

#[test]
fn malformed_payloads_are_refused() {
    for payload in [
        &b""[..],
        b"1",
        b"1:2",
        b":2:x",
        b"1::x",
        b"a:2:x",
        b"1:b:x",
        b"-1:2:x",
        b" 1:2:x",
        b"1 :2:x",
        b"\xff:2:x",
        b"1:\xc3\xa9:x",
        b"18446744073709551616:2:x",
        b"1:340282366920938463463374607431768211456:x",
    ] {
        assert_eq!(parse_counter_payload_at(payload, 0), None, "{payload:?}");
    }
}

#[test]
fn largest_numbers_are_read() {
    let payload = counter_payload(u64::MAX, u128::MAX, b"x");
    let m = parse_counter_payload_at(&payload, 0).unwrap();
    assert_eq!(m.seq, u64::MAX);
    assert_eq!(m.sent_us, u128::MAX);
    assert_eq!(m.latency_us, 1);
}

#[test]
fn what_is_written_is_read_back() {
    for (seq, sent, size) in [(0u64, 0u128, 0usize), (41, 1_700_000_000_123_456, 1), (u64::MAX, 9, 4000)] {
        let payload = counter_payload(seq, sent, &vec![0x78; size]);
        let m = parse_counter_payload_at(&payload, sent + 250).unwrap();
        assert_eq!(m, Message { seq, sent_us: sent, recv_us: sent + 250, latency_us: 250 });
    }
}

#[test]
fn latency_is_the_difference() {
    assert_eq!(latency_us(1500, 1000), 500);
    assert_eq!(latency_us(1000, 1500), -500);
    assert_eq!(latency_us(i64::MAX as u128, 0), i64::MAX);
}

#[test]
fn latency_is_kept_in_sixty_four_bits() {
    assert_eq!(latency_us(1u128 << 64, 0), 0);
    assert_eq!(latency_us(1u128 << 63, 0), i64::MIN);
    assert_eq!(latency_us(0, 1u128 << 63), i64::MIN);
    assert_eq!(
        latency_us(u128::MAX, 5),
        (u128::MAX as i64).wrapping_sub(5)
    );
}

#[test]
fn messages_are_stamped_when_they_are_received() {
    let before = now_us().unwrap();
    let m = parse_counter_payload(b"3:10:x").unwrap().unwrap();
    assert_eq!((m.seq, m.sent_us), (3, 10));
    assert!(m.recv_us >= before);
    assert_eq!(m.latency_us, m.recv_us as i64 - 10);
    assert_eq!(parse_counter_payload(b"nothing"), Ok(None));
}
