use mqtt_bench::broker::{broker_host, broker_port};
use mqtt_bench::filters::{parse_values, ArgError, Filters, Invocation, HELP};

fn parse(args: &[&str]) -> Invocation {
    let mut line = vec!["mqtt-analyser".to_string()];
    line.extend(args.iter().map(|s| s.to_string()));
    Filters::from_args(&line)
}

fn filters(args: &[&str]) -> Filters {
    match parse(args) {
        Invocation::Run(f) => f,
        other => panic!("{other:?}"),
    }
}

fn error(args: &[&str]) -> ArgError {
    match parse(args) {
        Invocation::Rejected(e) => e,
        other => panic!("{other:?}"),
    }
}

#[test]
fn no_arguments_mean_no_filters() {
    assert_eq!(filters(&[]), Filters::default());
    assert_eq!(Filters::from_args(&vec![]), Invocation::Run(Filters::default()));
}

#[test]
fn every_flag_sets_its_list() {
    let f = filters(&["--pub-qos", "0,1", "--sub-qos", "2", "--delay", "0", "--size", "1,4000"]);
    assert_eq!(f.pub_qos, Some(vec![0, 1]));
    assert_eq!(f.sub_qos, Some(vec![2]));
    assert_eq!(f.delay_ms, Some(vec![0]));
    assert_eq!(f.msg_size, Some(vec![1, 4000]));
}

#[test]
fn unspecified_dimensions_stay_open() {
    let f = filters(&["--delay", "0", "--size", "1"]);
    assert_eq!(f.pub_qos, None);
    assert_eq!(f.sub_qos, None);
    assert!(f.matches(2, 1, 0, 1));
    assert!(!f.matches(2, 1, 100, 1));
    assert!(!f.matches(2, 1, 0, 1000));
}

#[test]
fn a_repeated_flag_counts_with_its_last_list() {
    let f = filters(&["--delay", "0", "--pub-qos", "1", "--delay", "100,7"]);
    assert_eq!(f.delay_ms, Some(vec![100, 7]));
    assert_eq!(f.pub_qos, Some(vec![1]));
}

#[test]
fn invalid_pieces_are_passed_over() {
    let f = filters(&["--pub-qos", " 0 ,3,x,,1,-1,256"]);
    assert_eq!(f.pub_qos, Some(vec![0, 1]));
    assert_eq!(parse_values("1,2,,3", 2), vec![1, 2]);
    assert_eq!(parse_values("18446744073709551615,18446744073709551616", u64::MAX), vec![u64::MAX]);
    assert_eq!(parse_values("", u64::MAX), Vec::<u64>::new());
    assert_eq!(parse_values("100", u64::MAX), vec![100]);
}

#[test]
fn a_flag_needs_a_value() {
    for flag in ["--pub-qos", "--sub-qos", "--delay", "--size"] {
        assert_eq!(error(&[flag]), ArgError::MissingValue(flag.to_string()));
    }
    assert_eq!(error(&["--size"]).message(), "Flag --size requires a value");
}

#[test]
fn a_flag_needs_a_valid_value() {
    let e = error(&["--sub-qos", "3,4"]);
    assert_eq!(
        e,
        ArgError::NoValidValues { flag: "--sub-qos".to_string(), raw: "3,4".to_string() }
    );
    assert_eq!(e.message(), "Flag --sub-qos: no valid values in '3,4'");
    assert_eq!(
        error(&["--delay", "--size"]),
        ArgError::NoValidValues { flag: "--delay".to_string(), raw: "--size".to_string() }
    );
}

#[test]
fn an_unknown_argument_is_refused() {
    let e = error(&["--delay", "0", "fast"]);
    assert_eq!(e, ArgError::UnknownArgument("fast".to_string()));
    assert_eq!(e.message(), "Unknown argument: fast  (try --help)");
}

#[test]
fn help_is_asked_for() {
    assert_eq!(parse(&["--help"]), Invocation::Help);
    assert_eq!(parse(&["--delay", "0", "-h", "nonsense"]), Invocation::Help);
    assert!(HELP.starts_with("Usage: mqtt-analyser [OPTIONS]\n\nOptions:\n--pub-qos <0,1,2>   "));
    assert!(HELP.ends_with("\nmqtt-analyser --delay 0 --size 1\n"));
}

#[test]
fn the_first_refusal_decides() {
    assert_eq!(error(&["bad", "--help"]), ArgError::UnknownArgument("bad".to_string()));
}

#[test]
fn a_value_list_is_taken_from_the_next_argument() {
    let args: Vec<String> = ["x", "--delay", "5, 6"].iter().map(|s| s.to_string()).collect();
    let mut i = 1usize;
    assert_eq!(Filters::parse_list(&args, &mut i, "--delay", u64::MAX), Ok(vec![5, 6]));
    assert_eq!(i, 2);
    assert_eq!(
        Filters::parse_list(&args, &mut i, "--delay", u64::MAX),
        Err(ArgError::MissingValue("--delay".to_string()))
    );
    assert_eq!(i, 3);
    assert_eq!(
        Filters::parse_list(&args, &mut i, "--size", 5),
        Err(ArgError::MissingValue("--size".to_string()))
    );
    assert_eq!(i, 4);
}

#[test]
fn open_filters_match_everything() {
    let f = Filters::default();
    assert!(f.matches(0, 2, 100, 4000));
    assert!(f.matches(255, 255, u64::MAX, usize::MAX));
}

#[test]
fn the_host_is_configured() {
    assert_eq!(broker_host(None), "localhost");
    assert_eq!(broker_host(Some("10.0.0.1".to_string())), "10.0.0.1");
    assert_eq!(broker_host(Some(String::new())), "");
}

#[test]
fn the_port_is_configured() {
    assert_eq!(broker_port(None), 1883);
    assert_eq!(broker_port(Some("8883".to_string())), 8883);
    assert_eq!(broker_port(Some("65535".to_string())), 65535);
    assert_eq!(broker_port(Some("65536".to_string())), 1883);
    assert_eq!(broker_port(Some(" 8883".to_string())), 1883);
    assert_eq!(broker_port(Some("mqtt".to_string())), 1883);
}
