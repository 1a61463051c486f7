use hyper::header::{HeaderMap, HeaderName, HeaderValue};
use palisade::config::RuntimeConfig;
use palisade::error::ProxyError;
use palisade::proxy::{inspect_pairs, inspect_request, rewrite_uri, screen_request};
use palisade::uri::Uri;
use std::time::Duration;

fn config(blocked_headers: &[&'static str], blocked_params: &[&str]) -> RuntimeConfig {
    RuntimeConfig {
        blocked_headers: blocked_headers.iter().map(|n| HeaderName::from_static(n)).collect(),
        blocked_params: blocked_params.iter().map(|p| p.to_string()).collect(),
        strip_response_headers: Vec::new(),
        max_body_size: 1024,
        masking: false,
        mask_max_body_size: 0,
        trust_forwarded_headers: false,
        failure_threshold: 3,
        healthy_threshold: 1,
        request_timeout: Duration::from_secs(30),
        connect_timeout: Duration::from_secs(5),
        pool_idle_timeout: Duration::from_secs(90),
        pool_max_idle_per_host: 32,
    }
}

fn headers(fields: &[(&'static str, &'static str)]) -> HeaderMap<HeaderValue> {
    let mut map = HeaderMap::new();
    for (name, value) in fields {
        map.append(HeaderName::from_static(name), HeaderValue::from_static(value));
    }
    map
}

fn parse_uri(uri: &str) -> Uri {
    Uri::parse(uri).expect("failed to parse URI")
}

#[test]
fn rewrite_uri_preserves_path_and_query() {
    let original = parse_uri("http://client-facing.com/api/v1?key=val");
    let upstream = parse_uri("http://localhost:3000");

    let result = rewrite_uri(&original, &upstream).unwrap();
    assert_eq!(result.scheme(), Some("http"));
    assert_eq!(result.authority().unwrap(), "localhost:3000");
    assert_eq!(result.path_and_query().unwrap(), "/api/v1?key=val");
}

#[test]
fn rewrite_uri_defaults_to_root_path() {
    let original = parse_uri("http://client-facing.com");
    let upstream = parse_uri("http://localhost:3000");

    let result = rewrite_uri(&original, &upstream).unwrap();
    assert_eq!(result.path_and_query().unwrap(), "/");
}

#[test]
fn rewrite_uri_needs_a_root_path_where_there_is_none() {
    let original = parse_uri("client-facing.com:443");
    let upstream = parse_uri("https://backend/ignored");

    let result = rewrite_uri(&original, &upstream).unwrap();
    assert_eq!(result.text(), "https://backend/");
}

#[test]
fn rewrite_uri_rejects_an_upstream_without_authority() {
    let original = parse_uri("http://client-facing.com/");
    assert_eq!(
        rewrite_uri(&original, &parse_uri("/only/a/path")),
        Err(ProxyError::InvalidUpstream("upstream has no authority".into()))
    );
}

#[test]
fn rewrite_uri_rejects_an_upstream_without_scheme() {
    let original = parse_uri("http://client-facing.com/");
    assert_eq!(
        rewrite_uri(&original, &parse_uri("backend:3000")),
        Err(ProxyError::InvalidUpstream("upstream has no scheme".into()))
    );
}

#[test]
fn a_string_that_is_no_uri_is_not_parsed() {
    assert!(Uri::parse("http://exa mple").is_none());
    assert!(Uri::parse("").is_none());
}

#[test]
fn inspect_detects_blocked_header() {
    let config = config(&["x-bad-header"], &[]);
    let headers = headers(&[("x-bad-header", "anything")]);
    let result = inspect_request(&headers, &parse_uri("http://example.com/"), &config);
    assert!(result.is_err());
    assert_eq!(result, Err(ProxyError::BlockedHeader("x-bad-header".into())));
}

#[test]
fn inspect_detects_blocked_param() {
    let config = config(&[], &["secret_key"]);
    let uri = parse_uri("http://example.com/?secret_key=abc123");
    let result = inspect_request(&headers(&[]), &uri, &config);
    assert!(result.is_err());
    assert_eq!(result, Err(ProxyError::BlockedParam("secret_key".into())));
}

#[test]
fn inspect_enforces_blocked_header_on_non_get() {
    let config = config(&["x-bad-header"], &[]);
    let headers = headers(&[("x-bad-header", "anything")]);
    assert!(
        inspect_request(&headers, &parse_uri("http://example.com/resource"), &config).is_err()
    );
}

#[test]
fn inspect_blocked_param_requires_exact_key() {
    let config = config(&[], &["secret_key"]);
    let uri = parse_uri("http://example.com/?my_secret_key=abc123");
    assert!(inspect_request(&headers(&[]), &uri, &config).is_ok());
}

#[test]
fn inspect_blocked_param_matches_percent_encoded_key() {
    let config = config(&[], &["secret key"]);
    let uri = parse_uri("http://example.com/?secret%20key=abc123");
    assert!(inspect_request(&headers(&[]), &uri, &config).is_err());
}

#[test]
fn inspect_allows_clean_request() {
    let config = config(&["x-bad-header"], &["secret_key"]);
    let headers = headers(&[("x-good-header", "ok")]);
    let uri = parse_uri("http://example.com/path?safe=true");
    assert!(inspect_request(&headers, &uri, &config).is_ok());
}

#[test]
fn headers_come_before_parameters_and_the_first_match_is_named() {
    let config = config(&["x-first", "x-second"], &["b", "c"]);
    let uri = parse_uri("http://example.com/?a=1&c=2&b=3");
    assert_eq!(
        inspect_request(&headers(&[("x-second", ""), ("x-first", "")]), &uri, &config),
        Err(ProxyError::BlockedHeader("x-first".into()))
    );
    // The order of the query decides among parameters.
    assert_eq!(
        inspect_request(&headers(&[]), &uri, &config),
        Err(ProxyError::BlockedParam("c".into()))
    );
}

#[test]
fn pairs_are_matched_by_key_alone() {
    let config = config(&[], &["k"]);
    let pairs = [("a".to_string(), "k".to_string())];
    assert_eq!(inspect_pairs(&headers(&[]), &pairs, &config), Ok(()));
    let pairs = [("a".to_string(), "k".to_string()), ("k".to_string(), String::new())];
    assert_eq!(
        inspect_pairs(&headers(&[]), &pairs, &config),
        Err(ProxyError::BlockedParam("k".into()))
    );
}

#[test]
fn screening_goes_in_order() {
    let config = config(&["x-bad-header"], &[]);
    let uri = parse_uri("http://example.com/");
    let everything = headers(&[
        ("content-length", "2048"),
        ("transfer-encoding", "chunked"),
        ("x-bad-header", "1"),
    ]);
    let limited = screen_request(&everything, &uri, Some(250), &config).unwrap_err();
    assert_eq!(limited, ProxyError::RateLimited { retry_after_ms: 250 });
    assert_eq!(limited.refusal_status(), Some(429));

    let ambiguous = screen_request(&everything, &uri, None, &config).unwrap_err();
    assert_eq!(ambiguous, ProxyError::RequestSmuggling);
    assert_eq!(ambiguous.refusal_status(), Some(400));

    let oversized = headers(&[("content-length", "1025"), ("x-bad-header", "1")]);
    let too_large = screen_request(&oversized, &uri, None, &config).unwrap_err();
    assert_eq!(too_large, ProxyError::BodyTooLarge { limit: 1024 });
    assert_eq!(too_large.refusal_status(), Some(413));

    let blocked = headers(&[("content-length", "1024"), ("x-bad-header", "1")]);
    let forbidden = screen_request(&blocked, &uri, None, &config).unwrap_err();
    assert_eq!(forbidden, ProxyError::BlockedHeader("x-bad-header".into()));
    assert_eq!(forbidden.refusal_status(), Some(403));

    let clean = headers(&[("content-length", "1024")]);
    assert_eq!(screen_request(&clean, &uri, None, &config), Ok(()));
}

#[test]
fn statuses_of_refusals_and_failures() {
    assert_eq!(ProxyError::NoHealthyUpstream.refusal_status(), Some(503));
    assert_eq!(ProxyError::BlockedParam("k".into()).refusal_status(), Some(403));
    assert_eq!(ProxyError::Upstream("refused".into()).refusal_status(), None);
    assert_eq!(ProxyError::Timeout(Duration::from_secs(1)).refusal_status(), None);
    assert_eq!(ProxyError::Internal("x".into()).refusal_status(), None);
}

#[test]
fn schemes_and_authorities_that_cannot_stand_in_a_uri_are_refused() {
    let uri = parse_uri("/a?b=c");
    assert_eq!(uri.retarget("x+y-z.1~", "host:1").unwrap().text(), "x+y-z.1~://host:1/a?b=c");
    assert!(uri.retarget(&"s".repeat(64), "host").is_ok());
    assert!(uri.retarget(&"s".repeat(65), "host").is_err());
    assert!(uri.retarget("ht:tp", "host").is_err());
    assert!(uri.retarget("h t", "host").is_err());
    assert!(uri.retarget("http", "bad host").is_err());
    assert_eq!(parse_uri("*").retarget("http", "host").unwrap().path_and_query(), Some("*"));
}

#[test]
fn the_query_is_what_follows_the_first_question_mark() {
    let cases = [
        ("/a?b=c?d", Some("/a?b=c?d"), Some("b=c?d"), "/a?b=c?d"),
        ("/a?", Some("/a?"), Some(""), "/a?"),
        ("/a#f?g", Some("/a"), None, "/a"),
        ("/a?b#f?g", Some("/a?b"), Some("b"), "/a?b"),
        ("*", Some("*"), None, "*"),
        ("host:80", None, None, "host:80"),
        ("http://host", Some("/"), None, "http://host/"),
        ("http://host?x=1", Some("?x=1"), Some("x=1"), "http://host/?x=1"),
        ("https://host/p?x=1", Some("/p?x=1"), Some("x=1"), "https://host/p?x=1"),
    ];
    for (text, path, query, written) in cases {
        let uri = parse_uri(text);
        assert_eq!(uri.path_and_query(), path);
        assert_eq!(uri.query(), query);
        assert_eq!(uri.text(), written);
        let moved = uri.retarget("http", "backend:1").unwrap();
        assert_eq!(moved.query(), query);
        assert_eq!(moved.path_and_query(), Some(path.unwrap_or("/")));
    }
}
