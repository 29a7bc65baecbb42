use std::time::Duration;

use httpress::cli::{Args, Method};
use httpress::config::{
    duration_in_range, parse_duration, parse_headers, BenchConfig, ConfigError, Headers,
    HttpMethod, StopCondition,
};

fn args(url: &str) -> Args {
    Args {
        url: url.to_string(),
        method: Method::Get,
        concurrency: 10,
        requests: None,
        duration: None,
        headers: Vec::new(),
        body: None,
        timeout: 30,
        rate: None,
    }
}

fn strings(v: &[&str]) -> Vec<String> {
    v.iter().map(|s| s.to_string()).collect()
}

fn invalid_duration(r: Result<Duration, ConfigError>) -> String {
    match r {
        Err(ConfigError::InvalidDuration(s)) => s,
        other => panic!("expected an invalid duration, got {:?}", other),
    }
}

#[test]
fn duration_units() {
    assert_eq!(parse_duration("10s").unwrap(), Duration::from_secs(10));
    assert_eq!(parse_duration("500ms").unwrap(), Duration::from_millis(500));
    assert_eq!(parse_duration("2m").unwrap(), Duration::from_secs(120));
    assert_eq!(parse_duration("7").unwrap(), Duration::from_secs(7));
    assert_eq!(parse_duration("0ms").unwrap(), Duration::ZERO);
    assert_eq!(parse_duration("1500ms").unwrap(), Duration::from_millis(1500));
}

#[test]
fn duration_bare_number_is_seconds() {
    assert_eq!(parse_duration("42").unwrap(), parse_duration("42s").unwrap());
    assert_eq!(parse_duration("1m").unwrap(), parse_duration("60s").unwrap());
}

#[test]
fn duration_surrounding_space_ignored() {
    assert_eq!(parse_duration("  10s \t").unwrap(), Duration::from_secs(10));
    assert_eq!(parse_duration("\u{3000}3m\u{a0}").unwrap(), Duration::from_secs(180));
    assert_eq!(invalid_duration(parse_duration("  5x \n")), "5x");
}

#[test]
fn duration_sign_and_digits() {
    assert_eq!(parse_duration("+5s").unwrap(), Duration::from_secs(5));
    assert_eq!(invalid_duration(parse_duration("-5s")), "-5s");
    assert_eq!(invalid_duration(parse_duration("+")), "+");
    assert_eq!(invalid_duration(parse_duration("1.5s")), "1.5s");
    assert_eq!(invalid_duration(parse_duration("5 s")), "5 s");
}

#[test]
fn duration_rejected_texts() {
    assert_eq!(invalid_duration(parse_duration("abc")), "abc");
    assert_eq!(invalid_duration(parse_duration("")), "");
    assert_eq!(invalid_duration(parse_duration("ms")), "ms");
    assert_eq!(invalid_duration(parse_duration("s")), "s");
    assert_eq!(invalid_duration(parse_duration("m")), "m");
    assert_eq!(invalid_duration(parse_duration("10h")), "10h");
    // a number before "ms" that does not parse is not retried as minutes or seconds
    assert_eq!(invalid_duration(parse_duration("5xms")), "5xms");
}

#[test]
fn duration_limits() {
    assert_eq!(
        parse_duration("18446744073709551615s").unwrap(),
        Duration::from_secs(u64::MAX)
    );
    assert_eq!(
        invalid_duration(parse_duration("18446744073709551616")),
        "18446744073709551616"
    );
    assert!(duration_in_range("307445734561825860m"));
    assert!(!duration_in_range("307445734561825861m"));
    assert!(duration_in_range("307445734561825861s"));
    assert!(duration_in_range("nonsense"));
    assert_eq!(
        parse_duration("307445734561825860m").unwrap(),
        Duration::from_secs(307445734561825860 * 60)
    );
}

#[test]
fn duration_matches_std_parse() {
    for s in ["0", "007", "+12", "-1", "", "12a", "99999999999999999999", "18446744073709551615"] {
        let expected = s.trim().parse::<u64>().ok().map(Duration::from_secs);
        assert_eq!(parse_duration(s).ok(), expected, "input {:?}", s);
    }
}

#[test]
fn headers_parsed() {
    let h = parse_headers(&strings(&["Content-Type: application/json", "X-Token:abc"])).unwrap();
    assert_eq!(h.len(), 2);
    assert_eq!(h.get("Content-Type").unwrap(), "application/json");
    assert_eq!(h.get("X-Token").unwrap(), "abc");
    assert!(h.get("x-token").is_none());
}

#[test]
fn headers_trimmed_and_split_at_first_colon() {
    let h = parse_headers(&strings(&["  Host :  example.com:8080  "])).unwrap();
    assert_eq!(h.get("Host").unwrap(), "example.com:8080");
    let h = parse_headers(&strings(&[":"])).unwrap();
    assert_eq!(h.get("").unwrap(), "");
}

#[test]
fn headers_last_value_wins() {
    let h = parse_headers(&strings(&["A: 1", "B: 2", "A: 3"])).unwrap();
    assert_eq!(h.len(), 2);
    assert_eq!(h.get("A").unwrap(), "3");
    assert_eq!(h.get("B").unwrap(), "2");
    let keys: Vec<&str> = h.entries().iter().map(|(k, _)| k.as_str()).collect();
    assert_eq!(keys, vec!["A", "B"]);
}

#[test]
fn headers_first_bad_line_reported() {
    match parse_headers(&strings(&["A: 1", "no colon", "also bad"])) {
        Err(ConfigError::InvalidHeader(s)) => assert_eq!(s, "no colon"),
        other => panic!("unexpected {:?}", other),
    }
    assert_eq!(parse_headers(&[]).unwrap().len(), 0);
}

#[test]
fn headers_map_insert_get() {
    let mut h = Headers::new();
    assert_eq!(h.len(), 0);
    h.insert("k".to_string(), "v1".to_string());
    h.insert("k".to_string(), "v2".to_string());
    h.insert("j".to_string(), "w".to_string());
    assert_eq!(h.len(), 2);
    assert_eq!(h.get("k").unwrap(), "v2");
    let c = h.clone();
    assert_eq!(c.get("j").unwrap(), "w");
    assert_eq!(c.len(), 2);
}

#[test]
fn config_from_args_defaults() {
    let c = BenchConfig::from_args(args("http://localhost/")).unwrap();
    assert_eq!(c.url, "http://localhost/");
    assert_eq!(c.method, HttpMethod::Get);
    assert_eq!(c.concurrency, 10);
    assert!(matches!(c.stop_condition, StopCondition::Infinite));
    assert_eq!(c.headers.len(), 0);
    assert_eq!(c.body, None);
    assert_eq!(c.timeout, Duration::from_secs(30));
    assert_eq!(c.rate, None);
}

#[test]
fn config_from_args_requests_and_fields() {
    let mut a = args("http://x/y");
    a.requests = Some(100);
    a.method = Method::Post;
    a.body = Some("{}".to_string());
    a.timeout = 5;
    a.concurrency = 3;
    a.headers = strings(&["A: b"]);
    a.rate = Some(50);
    let c = BenchConfig::from_args(a).unwrap();
    assert_eq!(c.rate, Some(50));
    assert!(matches!(c.stop_condition, StopCondition::Requests(100)));
    assert_eq!(c.method, HttpMethod::Post);
    assert_eq!(c.body.as_deref(), Some("{}"));
    assert_eq!(c.timeout, Duration::from_secs(5));
    assert_eq!(c.concurrency, 3);
    assert_eq!(c.headers.get("A").unwrap(), "b");
}

#[test]
fn config_from_args_duration() {
    let mut a = args("http://x");
    a.duration = Some("1m".to_string());
    let c = BenchConfig::from_args(a).unwrap();
    match c.stop_condition {
        StopCondition::Duration(d) => assert_eq!(d, Duration::from_secs(60)),
        other => panic!("unexpected {:?}", other),
    }
}

#[test]
fn config_from_args_errors() {
    let mut a = args("http://x");
    a.duration = Some(" soon ".to_string());
    a.headers = strings(&["bad"]);
    match BenchConfig::from_args(a) {
        Err(ConfigError::InvalidDuration(s)) => assert_eq!(s, "soon"),
        other => panic!("unexpected {:?}", other.map(|c| c.url)),
    }
    let mut a = args("http://x");
    a.headers = strings(&["ok: 1", "bad"]);
    match BenchConfig::from_args(a) {
        Err(ConfigError::InvalidHeader(s)) => assert_eq!(s, "bad"),
        other => panic!("unexpected {:?}", other.map(|c| c.url)),
    }
}

#[test]
fn method_conversion() {
    let pairs = [
        (Method::Get, HttpMethod::Get),
        (Method::Post, HttpMethod::Post),
        (Method::Put, HttpMethod::Put),
        (Method::Delete, HttpMethod::Delete),
        (Method::Patch, HttpMethod::Patch),
        (Method::Head, HttpMethod::Head),
        (Method::Options, HttpMethod::Options),
    ];
    for (m, h) in pairs {
        assert_eq!(HttpMethod::from(m), h);
    }
}

#[test]
fn error_messages() {
    assert_eq!(
        ConfigError::InvalidDuration("x".to_string()).message(),
        "Invalid duration: 'x'. Use format like 10s, 1m, 500ms"
    );
    assert_eq!(
        ConfigError::InvalidHeader("y".to_string()).message(),
        "Invalid header: 'y'. Use format 'Key: Value'"
    );
}

#[test]
fn duration_padding_changes_nothing() {
    for s in ["10s", "500ms", "2m", "7", "abc", "", " 5x"] {
        let padded = format!("  {}  ", s);
        match (parse_duration(s), parse_duration(&padded)) {
            (Ok(a), Ok(b)) => assert_eq!(a, b),
            (Err(ConfigError::InvalidDuration(a)), Err(ConfigError::InvalidDuration(b))) => {
                assert_eq!(a, b)
            }
            other => panic!("input {:?}: {:?}", s, other),
        }
    }
}

#[test]
fn duration_units_agree() {
    assert_eq!(parse_duration("1000ms").unwrap(), parse_duration("1s").unwrap());
    assert_ne!(parse_duration("999ms").unwrap(), parse_duration("1s").unwrap());
    assert_eq!(parse_duration("60000ms").unwrap(), parse_duration("1m").unwrap());
}
