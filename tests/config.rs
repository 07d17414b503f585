use healthtechsim::config::{parse_u64, Config};

fn args(list: &[&str]) -> Vec<String> {
    list.iter().map(|s| s.to_string()).collect()
}

#[test]
fn defaults_without_arguments() {
    let c = Config::from_args(&args(&[])).ok().expect("defaults");
    assert_eq!(c.file_path, "fake_claims.jsonl");
    assert_eq!(c.ingest_rate, 1);
    assert!(!c.verbose);
}

#[test]
fn arguments_are_read_in_order() {
    let c = Config::from_args(&args(&["claims.jsonl", "3", "x", "v"])).ok().expect("valid");
    assert_eq!(c.file_path, "claims.jsonl");
    assert_eq!(c.ingest_rate, 3);
    assert!(c.verbose);
    let c = Config::from_args(&args(&["claims.jsonl", "0", "verbose"])).ok().expect("valid");
    assert_eq!(c.ingest_rate, 0);
    assert!(c.verbose);
    let c = Config::from_args(&args(&["claims.jsonl", "+7", "loud"])).ok().expect("valid");
    assert_eq!(c.ingest_rate, 7);
    assert!(!c.verbose);
}

#[test]
fn bad_ingest_rate_is_refused() {
    assert!(Config::from_args(&args(&["f", "-1"])).is_err());
    assert!(Config::from_args(&args(&["f", "1.5"])).is_err());
    assert!(Config::from_args(&args(&["f", ""])).is_err());
    assert!(Config::from_args(&args(&["f", "18446744073709551616"])).is_err());
}

#[test]
fn parse_u64_matches_std() {
    for text in ["0", "42", "+5", "007", "18446744073709551615", "18446744073709551616", "", "+", "-3", " 1", "1a", "99999999999999999999"] {
        assert_eq!(parse_u64(text), text.parse::<u64>().ok(), "{}", text);
    }
}

#[test]
fn claim_event_line_format() {
    let line = healthtechsim::logging::claim_event_line("biller", "abc123", "start", "Starting biller task");
    assert_eq!(line, "[biller][claim:abc123][start] Starting biller task");
}
