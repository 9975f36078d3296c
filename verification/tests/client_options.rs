use mqtt_bench::broker::ConnectOptions;
use mqtt_bench::client::mqtt_options;
use mqtt_bench::matrix::TestCase;
use mqtt_bench::publisher::publisher_connect_options;
use mqtt_bench::session::Analyser;
use std::time::Duration;

#[test]
fn the_client_library_gets_the_analysers_options() {
    let analyser = Analyser::new("broker".to_string(), 8883);
    let case = TestCase { pub_qos: 1, delay_ms: 100, msg_size: 4000, sub_qos: 2 };
    let o = mqtt_options(&analyser.connect_options(&case));
    assert_eq!(o.client_id(), "analyser-1-100-4000-2");
    assert_eq!(o.broker_address(), ("broker".to_string(), 8883));
    assert_eq!(o.keep_alive(), Duration::from_secs(60));
    assert!(o.clean_session());
}

#[test]
fn the_client_library_gets_the_publishers_options() {
    let o = mqtt_options(&publisher_connect_options());
    assert_eq!(o.client_id(), "rust-publisher");
    assert_eq!(o.broker_address(), ("localhost".to_string(), 1883));
    assert_eq!(o.keep_alive(), Duration::from_secs(30));
    assert!(o.clean_session());
}

#[test]
fn the_probe_can_be_switched_off() {
    let o = mqtt_options(&ConnectOptions {
        client_id: "c".to_string(),
        host: "h".to_string(),
        port: 1,
        keep_alive_secs: 0,
        clean_session: true,
        request_capacity: 1,
    });
    assert_eq!(o.keep_alive(), Duration::ZERO);
    assert!(o.clean_session());
}
