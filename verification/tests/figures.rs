use mqtt_bench::matrix::TestCase;
use mqtt_bench::message::Message;
use mqtt_bench::stats::{
    latencies, maximum, mean, minimum, percentiles_p50_p99, run_stats, Bracket, Mean, RunStats,
};

const CASE: TestCase = TestCase { pub_qos: 0, delay_ms: 100, msg_size: 1, sub_qos: 1 };

fn message(latency_us: i64) -> Message {
    Message { seq: 0, sent_us: 0, recv_us: 0, latency_us }
}

#[test]
fn nothing_has_no_percentiles() {
    assert_eq!(percentiles_p50_p99(vec![]), (None, None));
}

#[test]
fn one_element_is_every_percentile() {
    let b = Some(Bracket { index: 0, lower: 7, upper: 7 });
    assert_eq!(percentiles_p50_p99(vec![7]), (b, b));
}

#[test]
fn percentiles_are_found_in_unsorted_data() {
    assert_eq!(
        percentiles_p50_p99(vec![40, 10, 30, 20]),
        (
            Some(Bracket { index: 1, lower: 20, upper: 30 }),
            Some(Bracket { index: 2, lower: 30, upper: 40 }),
        )
    );
    assert_eq!(
        percentiles_p50_p99(vec![-5, 3, 3, -9, 100]).0,
        Some(Bracket { index: 2, lower: 3, upper: 3 })
    );
}

#[test]
fn a_percentile_on_an_element_has_the_next_one_above_it() {
    let data: Vec<i64> = (0..=100).rev().collect();
    assert_eq!(
        percentiles_p50_p99(data),
        (
            Some(Bracket { index: 50, lower: 50, upper: 51 }),
            Some(Bracket { index: 99, lower: 99, upper: 100 }),
        )
    );
}

#[test]
fn percentiles_agree_with_a_position_in_floating_point() {
    for n in 1..3000usize {
        let data: Vec<i64> = (0..n as i64).collect();
        let (p50, p99) = percentiles_p50_p99(data);
        assert_eq!(p50.unwrap().index, ((50.0 / 100.0) * (n as f64 - 1.0)) as usize);
        assert_eq!(p99.unwrap().index, ((99.0 / 100.0) * (n as f64 - 1.0)) as usize);
    }
}

#[test]
fn percentiles_lie_between_the_extremes_in_order() {
    let data = vec![9, -4, 12, 12, 0, 3, -4, 8];
    let (p50, p99) = percentiles_p50_p99(data.clone());
    let (p50, p99) = (p50.unwrap(), p99.unwrap());
    assert!(minimum(&data).unwrap() <= p50.lower && p50.lower <= p50.upper);
    assert!(p50.lower <= p99.lower && p50.upper <= p99.upper);
    assert!(p99.upper <= maximum(&data).unwrap());
    let mut reversed = data.clone();
    reversed.reverse();
    assert_eq!(percentiles_p50_p99(reversed), (Some(p50), Some(p99)));
}

#[test]
fn the_mean_is_a_fraction() {
    assert_eq!(mean(&[]), None);
    assert_eq!(mean(&[1, 2, 4]), Some(Mean { sum: 7, count: 3 }));
    assert_eq!(mean(&[-3, 1]), Some(Mean { sum: -2, count: 2 }));
}

#[test]
fn the_sum_is_kept_in_sixty_four_bits() {
    assert_eq!(mean(&[i64::MAX, 1]), Some(Mean { sum: i64::MIN, count: 2 }));
    assert_eq!(mean(&[i64::MAX, 1, -1]), Some(Mean { sum: i64::MAX, count: 3 }));
}

#[test]
fn extremes_are_found() {
    assert_eq!(minimum(&[]), None);
    assert_eq!(maximum(&[]), None);
    assert_eq!(minimum(&[3, -1, 2]), Some(-1));
    assert_eq!(maximum(&[3, -1, 2]), Some(3));
}

#[test]
fn latencies_keep_their_order() {
    assert_eq!(latencies(&[message(3), message(-1)]), vec![3, -1]);
}

#[test]
fn a_run_without_messages_has_no_latencies() {
    assert_eq!(
        run_stats(CASE, &[], false),
        RunStats {
            case: CASE,
            messages_received: 0,
            messages_expected: Some(300),
            latency_us_min: None,
            latency_us_max: None,
            latency_us_avg: None,
            latency_us_p50: None,
            latency_us_p99: None,
            done_received: false,
        }
    );
}

#[test]
fn the_figures_of_a_run_are_gathered() {
    let unthrottled = TestCase { delay_ms: 0, ..CASE };
    let s = run_stats(unthrottled, &[message(30), message(10), message(20)], true);
    assert_eq!(
        s,
        RunStats {
            case: unthrottled,
            messages_received: 3,
            messages_expected: None,
            latency_us_min: Some(10),
            latency_us_max: Some(30),
            latency_us_avg: Some(Mean { sum: 60, count: 3 }),
            latency_us_p50: Some(Bracket { index: 1, lower: 20, upper: 30 }),
            latency_us_p99: Some(Bracket { index: 1, lower: 20, upper: 30 }),
            done_received: true,
        }
    );
}

#[test]
fn the_mean_lies_between_the_extremes() {
    let data = [9, -4, 12, 12, 0, 3, -4, 8];
    let m = mean(&data).unwrap();
    let n = m.count as i64;
    assert_eq!(m, Mean { sum: 36, count: 8 });
    assert!(minimum(&data).unwrap() * n <= m.sum && m.sum <= maximum(&data).unwrap() * n);
}
