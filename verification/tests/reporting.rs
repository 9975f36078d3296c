use mqtt_bench::report::{status_line, summary, summary_row, SummaryRow};

fn row() -> SummaryRow {
    SummaryRow {
        pub_qos: 0,
        sub_qos: 2,
        delay_ms: 100,
        msg_size: 1000,
        messages_received: 299,
        throughput: "7".to_string(),
        latency_avg: Some("812.4".to_string()),
        latency_p99: Some("1500".to_string()),
        latency_min: Some(-12),
        latency_max: Some(2001),
        error: None,
    }
}

#[test]
fn a_line_shows_the_figures() {
    let expected = format!(
        "{:>5} {:>5} {:>5}ms {:>4}B  {:>7} {:>7.0}/s {:>10} {:>10} {:>10} {:>10}",
        0, 2, 100, 1000, 299, 7.4f64, "812.4", "1500", "-12", "2001"
    );
    assert_eq!(summary_row(&row()), expected);
    assert_eq!(
        expected,
        "    0     2   100ms 1000B      299       7/s      812.4       1500        -12       2001"
    );
}

#[test]
fn missing_figures_are_marked() {
    let r = SummaryRow {
        messages_received: 0,
        throughput: "0".to_string(),
        latency_avg: None,
        latency_p99: None,
        latency_min: None,
        latency_max: None,
        ..row()
    };
    assert_eq!(
        summary_row(&r),
        "    0     2   100ms 1000B        0       0/s        N/A        N/A        N/A        N/A"
    );
}

#[test]
fn an_error_takes_the_place_of_the_figures() {
    let r = SummaryRow { error: Some("no broker".to_string()), ..row() };
    assert_eq!(summary_row(&r), "    0     2   100ms 1000B    ERROR: no broker");
}

#[test]
fn the_table_has_a_head_and_rulers() {
    let head = format!(
        "{:>5} {:>5} {:>6} {:>5}  {:>7} {:>8} {:>10} {:>10} {:>10} {:>10}",
        "pubQ", "subQ", "delay", "size", "msgs", "msg/s", "avg(µs)", "p99(µs)", "min(µs)", "max(µs)"
    );
    let thick = "=".repeat(100);
    let thin = "-".repeat(100);
    assert_eq!(summary(&[]), format!("\n{thick}\n{head}\n{thin}\n{thick}\n"));
    let line = summary_row(&row());
    assert_eq!(
        summary(&[row(), row()]),
        format!("\n{thick}\n{head}\n{thin}\n{line}\n{line}\n{thick}\n")
    );
}

#[test]
fn a_finished_test_is_reported() {
    assert_eq!(
        status_line(299, "7.5", &Some("812.4".to_string()), &Some("1500".to_string())),
        "299 msgs  7.5/s  avg=812.4µs  p99=1500µs"
    );
    assert_eq!(status_line(0, "0", &None, &None), "0 msgs  0/s  ");
    assert_eq!(status_line(1, "2", &Some("3".to_string()), &None), "1 msgs  2/s  ");
}
