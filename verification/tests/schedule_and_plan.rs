use mqtt_bench::filters::Filters;
use mqtt_bench::matrix::{
    announcement, progress, schedule, test_matrix, TestCase, DELAY_VALUES, MSG_SIZE_VALUES,
    PUB_QOS_VALUES, SUB_QOS_VALUES,
};
use mqtt_bench::publisher::{Burst, RunConfig};
use mqtt_bench::qos::{to_qos, QoS};
use mqtt_bench::session::{client_id, test_plan, Analyser, Step};
use mqtt_bench::timing::{expected_messages, initial_capacity};
use mqtt_bench::topics::{config_payload, counter_topic};

const CASE: TestCase = TestCase { pub_qos: 1, delay_ms: 100, msg_size: 4000, sub_qos: 2 };

fn only(pub_qos: Option<Vec<u8>>, delay_ms: Option<Vec<u64>>) -> Filters {
    Filters { pub_qos, sub_qos: None, delay_ms, msg_size: None }
}

#[test]
fn the_matrix_holds_all_combinations_in_order() {
    let mut expected = Vec::new();
    for pub_qos in PUB_QOS_VALUES {
        for delay_ms in DELAY_VALUES {
            for msg_size in MSG_SIZE_VALUES {
                for sub_qos in SUB_QOS_VALUES {
                    expected.push(TestCase { pub_qos, delay_ms, msg_size, sub_qos });
                }
            }
        }
    }
    assert_eq!(expected.len(), 54);
    assert_eq!(test_matrix(&Filters::default()), expected);
}

#[test]
fn the_matrix_is_filtered() {
    let f = Filters {
        pub_qos: Some(vec![0]),
        sub_qos: Some(vec![0]),
        delay_ms: Some(vec![100]),
        msg_size: Some(vec![1]),
    };
    assert_eq!(
        test_matrix(&f),
        vec![TestCase { pub_qos: 0, delay_ms: 100, msg_size: 1, sub_qos: 0 }]
    );
    assert_eq!(test_matrix(&only(None, Some(vec![0]))).len(), 27);
    assert_eq!(test_matrix(&only(Some(vec![2, 2]), None)).len(), 18);
}

#[test]
fn values_that_are_not_tested_match_nothing() {
    assert_eq!(test_matrix(&only(None, Some(vec![50]))), vec![]);
    assert!(schedule(&only(None, Some(vec![50]))).is_empty());
}

#[test]
fn tests_are_scheduled_with_pauses_between_them() {
    let tests = schedule(&only(Some(vec![1]), Some(vec![100])));
    assert_eq!(tests.len(), 9);
    assert_eq!(tests[0].progress, "[1/9] pubQoS=1  subQoS=0  delay=100ms  size=1B … ");
    assert_eq!(tests[8].progress, "[9/9] pubQoS=1  subQoS=2  delay=100ms  size=4000B … ");
    for (i, t) in tests.iter().enumerate() {
        assert_eq!(t.pause_after, i < 8);
    }
}

#[test]
fn test_numbers_are_padded_to_the_total() {
    let case = TestCase { pub_qos: 0, delay_ms: 0, msg_size: 1, sub_qos: 0 };
    assert_eq!(progress(3, 54, &case), "[ 3/54] pubQoS=0  subQoS=0  delay=0ms  size=1B … ");
    assert_eq!(progress(54, 54, &case), "[54/54] pubQoS=0  subQoS=0  delay=0ms  size=1B … ");
}

#[test]
fn the_run_is_announced() {
    assert_eq!(announcement(54), "Starting 54 test(s) (30s each) …\n");
}

#[test]
fn a_case_is_labelled() {
    assert_eq!(CASE.label(), "pubQoS=1  subQoS=2  delay=100ms  size=4000B");
}

#[test]
fn throttled_runs_have_an_expected_number_of_messages() {
    assert_eq!(expected_messages(0), None);
    assert_eq!(expected_messages(100), Some(300));
    assert_eq!(expected_messages(7), Some(4285));
    assert_eq!(expected_messages(1), Some(30_000));
    assert_eq!(expected_messages(30_001), Some(0));
    assert_eq!(expected_messages(u64::MAX), Some(0));
}

#[test]
fn room_is_made_for_the_expected_messages() {
    assert_eq!(initial_capacity(0), 12_000_000);
    assert_eq!(initial_capacity(100), 512);
    assert_eq!(initial_capacity(1), 32_768);
    assert_eq!(initial_capacity(u64::MAX), 64);
    for delay in 1..2_000u64 {
        let n = (30_000 / delay) as usize + 64;
        assert_eq!(initial_capacity(delay), n.next_power_of_two());
        assert!(expected_messages(delay).unwrap() < initial_capacity(delay));
    }
}

#[test]
fn qualities_of_service_are_numbered() {
    assert_eq!(to_qos(0), QoS::AtMostOnce);
    assert_eq!(to_qos(1), QoS::AtLeastOnce);
    assert_eq!(to_qos(2), QoS::ExactlyOnce);
    assert_eq!(to_qos(3), QoS::AtMostOnce);
    assert_eq!(to_qos(255), QoS::AtMostOnce);
}

#[test]
fn topics_and_payloads_are_named_after_the_settings() {
    assert_eq!(counter_topic(1, 100, 4000), "counter/1/100/4000");
    assert_eq!(config_payload(1, 100, 4000), "1:100:4000");
    assert_ne!(counter_topic(1, 10, 0), counter_topic(1, 1, 0));
    assert_eq!(client_id(&CASE), "analyser-1-100-4000-2");
}

#[test]
fn the_analyser_connects_with_a_clean_session() {
    let analyser = Analyser::new("broker".to_string(), 8883);
    let o = analyser.connect_options(&CASE);
    assert_eq!(o.client_id, "analyser-1-100-4000-2");
    assert_eq!(o.host, "broker");
    assert_eq!(o.port, 8883);
    assert_eq!(o.keep_alive_secs, 60);
    assert!(o.clean_session);
    assert_eq!(o.request_capacity, 65_535);
}

#[test]
fn a_test_takes_its_steps_in_order() {
    let topic = "counter/1/100/4000".to_string();
    let go = "request/go".to_string();
    let publish = |topic: &str, payload: &str| Step::Publish {
        topic: topic.to_string(),
        qos: QoS::AtLeastOnce,
        retain: false,
        payload: payload.to_string(),
    };
    assert_eq!(
        test_plan(&CASE),
        vec![
            Step::Subscribe { topic: topic.clone(), qos: QoS::ExactlyOnce },
            Step::Subscribe { topic: go.clone(), qos: QoS::ExactlyOnce },
            Step::AwaitReady { timeout_ms: 5000 },
            publish("request/go", "stop"),
            Step::Sleep { ms: 200 },
            publish("request/config", "1:100:4000"),
            Step::Sleep { ms: 200 },
            Step::StartTimer,
            publish("request/go", "start"),
            Step::Collect { window_secs: 40, capacity: 512 },
            Step::Drain,
            Step::StopTimer,
            Step::Unsubscribe { topic },
            Step::Unsubscribe { topic: go },
            Step::Disconnect,
            Step::Sleep { ms: 400 },
            Step::Drain,
            Step::StopReceiving,
        ]
    );
}

#[test]
fn every_case_has_its_own_names() {
    let cases = test_matrix(&Filters::default());
    for (i, a) in cases.iter().enumerate() {
        for b in &cases[..i] {
            assert_ne!(client_id(a), client_id(b));
            let same = (a.pub_qos, a.delay_ms, a.msg_size) == (b.pub_qos, b.delay_ms, b.msg_size);
            let topic = |c: &TestCase| counter_topic(c.pub_qos, c.delay_ms, c.msg_size);
            let config = |c: &TestCase| config_payload(c.pub_qos, c.delay_ms, c.msg_size);
            assert_eq!(topic(a) == topic(b), same);
            assert_eq!(config(a) == config(b), same);
        }
    }
}

#[test]
fn the_publisher_sends_where_the_analyser_listens() {
    let burst = Burst::new(&RunConfig { qos: 1, delay_ms: 100, message_size: 4000 });
    assert_eq!(
        test_plan(&CASE)[0],
        Step::Subscribe { topic: burst.topic, qos: QoS::ExactlyOnce }
    );
}
