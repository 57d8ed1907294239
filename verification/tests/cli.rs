use rust_ping::cli::{
    parse_args, parse_responder_args, usage, Config, ParseOutcome, ResponderOutcome,
};

fn args(list: &[&str]) -> Vec<String> {
    let mut all = vec!["rust_ping".to_string()];
    all.extend(list.iter().map(|a| a.to_string()));
    all
}

fn run_config(list: &[&str]) -> Config {
    match parse_args(&args(list)) {
        Ok(ParseOutcome::Run(config)) => config,
        Ok(ParseOutcome::Help) => panic!("expected a run, got help"),
        Err(message) => panic!("expected a run, got error {message}"),
    }
}

fn error_of(list: &[&str]) -> String {
    match parse_args(&args(list)) {
        Err(message) => message,
        Ok(_) => panic!("expected an error"),
    }
}

#[test]
fn defaults_apply_without_options() {
    let config = run_config(&["8.8.8.8"]);
    assert_eq!(config.target, "8.8.8.8");
    assert_eq!(config.count, 4);
    assert_eq!(config.timeout_ms, 1000);
    assert_eq!(config.interval_ms, 1000);
    assert!(!config.dump_bytes);
}

#[test]
fn options_set_their_fields() {
    let config = run_config(&["example.com", "-c", "5", "-W", "1500", "-i", "500", "--dump-bytes"]);
    assert_eq!(config.target, "example.com");
    assert_eq!(config.count, 5);
    assert_eq!(config.timeout_ms, 1500);
    assert_eq!(config.interval_ms, 500);
    assert!(config.dump_bytes);

    let config = run_config(&["--count", "+7", "--timeout", "0", "--interval", "18446744073709551615", "h"]);
    assert_eq!(config.count, 7);
    assert_eq!(config.timeout_ms, 0);
    assert_eq!(config.interval_ms, u64::MAX);
    assert_eq!(config.target, "h");
}

#[test]
fn help_wins_when_reached() {
    assert!(matches!(parse_args(&args(&["-h"])), Ok(ParseOutcome::Help)));
    assert!(matches!(parse_args(&args(&["host", "--help", "extra"])), Ok(ParseOutcome::Help)));
    assert_eq!(error_of(&["a", "b", "-h"]), "unknown argument: b");
}

#[test]
fn missing_target_is_an_error() {
    assert_eq!(error_of(&[]), "target host is required");
    assert_eq!(error_of(&["-c", "3"]), "target host is required");
    assert!(matches!(parse_args(&[]), Err(_)));
}

#[test]
fn missing_values_are_errors() {
    assert_eq!(error_of(&["host", "-c"]), "missing value for --count");
    assert_eq!(error_of(&["host", "--timeout"]), "missing value for --timeout");
    assert_eq!(error_of(&["host", "-i"]), "missing value for --interval");
}

#[test]
fn bad_numbers_are_errors() {
    assert_eq!(error_of(&["host", "-c", "65536"]), "count must be an integer");
    assert_eq!(error_of(&["host", "-c", "-1"]), "count must be an integer");
    assert_eq!(error_of(&["host", "-c", ""]), "count must be an integer");
    assert_eq!(error_of(&["host", "-c", "+"]), "count must be an integer");
    assert_eq!(error_of(&["host", "-W", "1x"]), "timeout must be an integer");
    assert_eq!(error_of(&["host", "-i", "18446744073709551616"]), "interval must be an integer");
    assert_eq!(run_config(&["host", "-c", "65535"]).count, 65535);
}

#[test]
fn second_target_is_unknown() {
    assert_eq!(error_of(&["one", "two"]), "unknown argument: two");
}

#[test]
fn unknown_option_becomes_target_when_none_is_set() {
    assert_eq!(run_config(&["-x"]).target, "-x");
}

#[test]
fn usage_mentions_options() {
    let text = usage();
    assert!(text.starts_with("Usage: rust_ping [options] <host>"));
    assert!(text.contains("--dump-bytes"));
    assert!(text.ends_with("sudo/root\n"));
}

#[test]
fn responder_arguments() {
    let argv = |list: &[&str]| {
        let mut all = vec!["ping_reply".to_string()];
        all.extend(list.iter().map(|a| a.to_string()));
        all
    };
    assert!(!parse_responder_args(&argv(&[])).unwrap().dump_bytes);
    assert!(parse_responder_args(&argv(&["--dump-bytes"])).unwrap().dump_bytes);
    assert!(matches!(parse_responder_args(&argv(&["--help"])), Err(ResponderOutcome::Help)));
    match parse_responder_args(&argv(&["--dump-bytes", "-x", "-h"])) {
        Err(ResponderOutcome::Message(message)) => assert_eq!(message, "unknown argument: -x"),
        _ => panic!("expected an error message"),
    }
}

#[test]
fn target_may_stand_before_or_after_options() {
    let opts = ["-c", "2", "--dump-bytes", "-W", "300", "--count", "9", "-i", "5"];
    let mut before = vec!["host"];
    before.extend_from_slice(&opts);
    let mut after = opts.to_vec();
    after.push("host");
    let first = run_config(&before);
    let second = run_config(&after);
    for config in [first, second] {
        assert_eq!(config.target, "host");
        assert_eq!(config.count, 9);
        assert_eq!(config.timeout_ms, 300);
        assert_eq!(config.interval_ms, 5);
        assert!(config.dump_bytes);
    }
}
