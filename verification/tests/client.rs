use httpress::client::{
    after_body, after_send, classify_error, reads_body, Error, ErrorCause, IoKind, Next,
    RequestConfig, Sent,
};
use httpress::config::{Headers, HttpMethod};

fn request(url: &str) -> RequestConfig {
    RequestConfig {
        url: url.to_string(),
        method: HttpMethod::Get,
        headers: Headers::new(),
        body: None,
    }
}

#[test]
fn uri_is_the_parsed_url() {
    let expected: hyper::Uri = "http://127.0.0.1:3000/ok?x=1".parse().unwrap();
    assert_eq!(request("http://127.0.0.1:3000/ok?x=1").uri().unwrap(), expected);
    assert_ne!(request("http://127.0.0.1:3000/ok?x=1").uri().unwrap(), "/".parse::<hyper::Uri>().unwrap());
}

#[test]
fn uri_accepted() {
    assert!(request("http://127.0.0.1:3000/ok").uri().is_ok());
    assert!(request("/").uri().is_ok());
}

#[test]
fn uri_rejected() {
    match request("").uri() {
        Err(Error::InvalidUrl(m)) => assert_eq!(m, "empty string"),
        other => panic!("unexpected {:?}", other),
    }
    match request("http://exa mple.com/").uri() {
        Err(Error::InvalidUrl(m)) => assert_eq!(m, "invalid uri character"),
        other => panic!("unexpected {:?}", other),
    }
}

#[test]
fn head_reads_no_body() {
    assert!(!reads_body(HttpMethod::Head));
    for m in [
        HttpMethod::Get,
        HttpMethod::Post,
        HttpMethod::Put,
        HttpMethod::Delete,
        HttpMethod::Patch,
        HttpMethod::Options,
    ] {
        assert!(reads_body(m));
    }
}

#[test]
fn tls_source_decides() {
    let causes = vec![
        ErrorCause::Opaque,
        ErrorCause::Tls("certificate verify failed".to_string()),
        ErrorCause::Io("connection refused".to_string(), IoKind::ConnectionRefused),
    ];
    match classify_error(&causes, "client error (Connect)") {
        Error::TlsError(m) => assert_eq!(m, "certificate verify failed"),
        other => panic!("unexpected {:?}", other),
    }
}

#[test]
fn dns_text_decides_before_kind() {
    let causes = vec![ErrorCause::Io(
        "Failed to lookup address information: Name or service not known".to_string(),
        IoKind::Other,
    )];
    assert!(matches!(classify_error(&causes, "client error"), Error::DnsError));
    let causes = vec![ErrorCause::Io("DNS error".to_string(), IoKind::ConnectionRefused)];
    assert!(matches!(classify_error(&causes, "client error"), Error::DnsError));
}

#[test]
fn io_kinds() {
    let one = |k| vec![ErrorCause::Io("boom".to_string(), k)];
    assert!(matches!(classify_error(&one(IoKind::ConnectionRefused), "x"), Error::ConnectionRefused));
    assert!(matches!(classify_error(&one(IoKind::ConnectionReset), "x"), Error::ConnectionReset));
    assert!(matches!(classify_error(&one(IoKind::TimedOut), "x"), Error::Timeout));
    match classify_error(&one(IoKind::Other), "x") {
        Error::Other(m) => assert_eq!(m, "boom"),
        other => panic!("unexpected {:?}", other),
    }
}

#[test]
fn own_text_decides_without_sources() {
    assert!(matches!(
        classify_error(&vec![ErrorCause::Opaque], "Connection Reset by peer"),
        Error::ConnectionReset
    ));
    assert!(matches!(
        classify_error(&Vec::new(), "CONNECTION REFUSED"),
        Error::ConnectionRefused
    ));
    match classify_error(&vec![ErrorCause::Opaque, ErrorCause::Opaque], "Protocol Error") {
        Error::Http(m) => assert_eq!(m, "Protocol Error"),
        other => panic!("unexpected {:?}", other),
    }
}

#[test]
fn opaque_sources_do_not_matter() {
    let with = vec![
        ErrorCause::Opaque,
        ErrorCause::Io("reset".to_string(), IoKind::ConnectionReset),
    ];
    let without = vec![ErrorCause::Io("reset".to_string(), IoKind::ConnectionReset)];
    assert!(matches!(classify_error(&with, "x"), Error::ConnectionReset));
    assert!(matches!(classify_error(&without, "x"), Error::ConnectionReset));
}

#[test]
fn after_send_steps() {
    assert!(matches!(
        after_send(Sent::Elapsed, HttpMethod::Get),
        Next::Finish(Err(Error::Timeout))
    ));
    let failed = Sent::Failed(
        vec![ErrorCause::Io("refused".to_string(), IoKind::ConnectionRefused)],
        "client error (Connect)".to_string(),
    );
    assert!(matches!(
        after_send(failed, HttpMethod::Post),
        Next::Finish(Err(Error::ConnectionRefused))
    ));
    assert!(matches!(
        after_send(Sent::Responded(204), HttpMethod::Head),
        Next::Finish(Ok((Some(204), 0)))
    ));
    assert!(matches!(
        after_send(Sent::Responded(500), HttpMethod::Get),
        Next::ReadBody(500)
    ));
}

#[test]
fn after_body_counts_bytes() {
    assert!(matches!(after_body(200, Some(42)), Ok((Some(200), 42))));
    assert!(matches!(after_body(404, None), Ok((Some(404), 0))));
}

fn with_headers(url: &str, headers: &[(&str, &str)]) -> RequestConfig {
    let mut h = Headers::new();
    for (k, v) in headers {
        h.insert(k.to_string(), v.to_string());
    }
    RequestConfig { url: url.to_string(), method: HttpMethod::Get, headers: h, body: None }
}

#[test]
fn validate_accepts_good_requests() {
    let req = with_headers("http://127.0.0.1:3000/ok", &[("Content-Type", "application/json"), ("X-A", "1")]);
    let expected: hyper::Uri = "http://127.0.0.1:3000/ok".parse().unwrap();
    assert_eq!(req.validate().unwrap(), expected);
    assert!(req.headers.first_rejection().is_none());
}

#[test]
fn validate_rejects_bad_headers() {
    match with_headers("http://x/", &[("bad name", "v")]).validate() {
        Err(Error::Http(m)) => assert_eq!(m, "invalid HTTP header name"),
        other => panic!("unexpected {:?}", other),
    }
    match with_headers("http://x/", &[("", "v")]).validate() {
        Err(Error::Http(m)) => assert_eq!(m, "invalid HTTP header name"),
        other => panic!("unexpected {:?}", other),
    }
    match with_headers("http://x/", &[("X-Ok", "fine"), ("X-Bad", "a\u{7f}b")]).validate() {
        Err(Error::Http(m)) => assert_eq!(m, "failed to parse header value"),
        other => panic!("unexpected {:?}", other),
    }
}

#[test]
fn validate_checks_url_first() {
    match with_headers("", &[("bad name", "v")]).validate() {
        Err(Error::InvalidUrl(m)) => assert_eq!(m, "empty string"),
        other => panic!("unexpected {:?}", other),
    }
}
