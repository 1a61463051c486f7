use hyper::header::{HeaderMap, HeaderName, HeaderValue};
use palisade::error::ProxyError;
use palisade::headers::{
    content_length_exceeds, inject_forwarding_headers, is_smuggling_attempt,
    rewrite_host, strip_hop_by_hop, strip_response_headers,
};

fn headers(fields: &[(&'static str, &'static str)]) -> HeaderMap<HeaderValue> {
    let mut map = HeaderMap::new();
    for (name, value) in fields {
        map.append(HeaderName::from_static(name), HeaderValue::from_static(value));
    }
    map
}

fn value<'a>(map: &'a HeaderMap<HeaderValue>, name: &str) -> Option<&'a str> {
    map.get(name).map(|v| v.to_str().unwrap())
}

#[test]
fn both_framings_at_once_are_ambiguous() {
    assert!(is_smuggling_attempt(&headers(&[
        ("content-length", "5"),
        ("transfer-encoding", "chunked"),
    ])));
    assert!(!is_smuggling_attempt(&headers(&[("content-length", "5")])));
    assert!(!is_smuggling_attempt(&headers(&[("transfer-encoding", "chunked")])));
    assert!(!is_smuggling_attempt(&headers(&[])));
}

#[test]
fn declared_lengths_are_compared_as_numbers() {
    assert!(content_length_exceeds(&headers(&[("content-length", "11")]), 10));
    assert!(!content_length_exceeds(&headers(&[("content-length", "10")]), 10));
    assert!(!content_length_exceeds(&headers(&[("content-length", "9")]), 10));
    assert!(content_length_exceeds(&headers(&[("content-length", "+11")]), 10));
    assert!(content_length_exceeds(
        &headers(&[("content-length", "0000000000000000000000011")]),
        10
    ));
    assert!(content_length_exceeds(
        &headers(&[("content-length", "18446744073709551615")]),
        u64::MAX - 1
    ));
}

#[test]
fn a_length_that_is_no_number_does_not_exceed() {
    for text in ["", "+", "-1", "1x", " 99", "18446744073709551616", "99999999999999999999999"] {
        assert!(!content_length_exceeds(&headers(&[("content-length", text)]), 0), "{}", text);
    }
    assert!(!content_length_exceeds(&headers(&[]), 0));
    let mut map = HeaderMap::new();
    map.insert("content-length", HeaderValue::from_bytes(&[0xff]).unwrap());
    assert!(!content_length_exceeds(&map, 0));
}

#[test]
fn connection_headers_are_stripped() {
    let mut map = headers(&[
        ("connection", "close, X-Private"),
        ("connection", "\tx-other ,,not a name"),
        ("keep-alive", "timeout=5"),
        ("proxy-authenticate", "Basic"),
        ("proxy-authorization", "Basic x"),
        ("proxy-connection", "keep-alive"),
        ("te", "trailers"),
        ("trailer", "x-sum"),
        ("transfer-encoding", "chunked"),
        ("upgrade", "h2c"),
        ("x-private", "1"),
        ("x-other", "2"),
        ("x-kept", "3"),
        ("x-kept", "4"),
        ("accept", "*/*"),
    ]);
    strip_hop_by_hop(&mut map);
    assert_eq!(map, headers(&[("x-kept", "3"), ("x-kept", "4"), ("accept", "*/*")]));

    let once = map.clone();
    strip_hop_by_hop(&mut map);
    assert_eq!(map, once);
}

#[test]
fn a_connection_value_that_is_no_text_lists_nothing() {
    let mut map = headers(&[("x-a", "1")]);
    map.append("connection", HeaderValue::from_bytes(b"x-a, \xff").unwrap());
    strip_hop_by_hop(&mut map);
    assert_eq!(map, headers(&[("x-a", "1")]));
}

#[test]
fn configured_response_headers_are_stripped() {
    let mut map = headers(&[("server", "nginx"), ("x-powered-by", "php"), ("etag", "1")]);
    strip_response_headers(
        &mut map,
        &[HeaderName::from_static("server"), HeaderName::from_static("x-powered-by")],
    );
    assert_eq!(map, headers(&[("etag", "1")]));
}

#[test]
fn an_untrusted_origin_is_replaced() {
    let mut map = headers(&[
        ("host", "example.com"),
        ("x-forwarded-for", "10.0.0.1"),
        ("x-forwarded-for", "10.0.0.2"),
        ("x-forwarded-proto", "https"),
        ("x-forwarded-host", "evil.example"),
        ("accept", "*/*"),
    ]);
    inject_forwarding_headers(&mut map, "192.0.2.7", false, false).unwrap();
    assert_eq!(
        map,
        headers(&[
            ("host", "example.com"),
            ("x-forwarded-for", "192.0.2.7"),
            ("x-forwarded-proto", "http"),
            ("x-forwarded-host", "example.com"),
            ("accept", "*/*"),
        ])
    );
}

#[test]
fn an_untrusted_host_claim_is_dropped_where_no_host_was_asked_for() {
    let mut map = headers(&[("x-forwarded-host", "evil.example")]);
    inject_forwarding_headers(&mut map, "2001:db8::1", true, false).unwrap();
    assert_eq!(
        map,
        headers(&[("x-forwarded-for", "2001:db8::1"), ("x-forwarded-proto", "https")])
    );
}

#[test]
fn a_trusted_origin_is_extended() {
    let mut map = headers(&[
        ("host", "example.com"),
        ("x-forwarded-for", "10.0.0.1, 10.0.0.2"),
        ("x-forwarded-for", "10.0.0.3"),
        ("x-forwarded-proto", "https"),
        ("x-forwarded-host", "outer.example"),
    ]);
    inject_forwarding_headers(&mut map, "192.0.2.7", false, true).unwrap();
    assert_eq!(value(&map, "x-forwarded-for"), Some("10.0.0.1, 10.0.0.2, 10.0.0.3, 192.0.2.7"));
    assert_eq!(map.get_all("x-forwarded-for").iter().count(), 1);
    assert_eq!(value(&map, "x-forwarded-proto"), Some("https"));
    assert_eq!(value(&map, "x-forwarded-host"), Some("outer.example"));
}

#[test]
fn a_trusted_client_without_claims_gets_the_observed_origin() {
    let mut map = headers(&[("host", "example.com")]);
    inject_forwarding_headers(&mut map, "192.0.2.7", true, true).unwrap();
    assert_eq!(value(&map, "x-forwarded-for"), Some("192.0.2.7"));
    assert_eq!(value(&map, "x-forwarded-proto"), Some("https"));
    assert_eq!(value(&map, "x-forwarded-host"), Some("example.com"));
}

#[test]
fn the_host_is_that_of_the_upstream() {
    let mut map = headers(&[("host", "example.com"), ("host", "twice.example")]);
    rewrite_host(&mut map, "backend:3000").unwrap();
    assert_eq!(map, headers(&[("host", "backend:3000")]));
}

fn crowded(names: usize) -> HeaderMap<HeaderValue> {
    let mut map = HeaderMap::new();
    for i in 0..names {
        let name = HeaderName::from_bytes(format!("x-{}", i).as_bytes()).unwrap();
        map.insert(name, HeaderValue::from_static("1"));
    }
    map
}

#[test]
fn many_headers_leave_room_for_a_few_more() {
    let mut map = crowded(10_000);
    inject_forwarding_headers(&mut map, "192.0.2.7", true, false).unwrap();
    rewrite_host(&mut map, "backend:3000").unwrap();
    assert_eq!(map.keys_len(), 10_003);
    assert_eq!(value(&map, "x-forwarded-for"), Some("192.0.2.7"));
}

#[test]
fn a_full_map_takes_no_more() {
    let full = ProxyError::Internal("too many headers".into());
    let mut map = crowded(24_576);
    let before = map.clone();
    assert_eq!(inject_forwarding_headers(&mut map, "192.0.2.7", true, false), Err(full));
    assert_eq!(map, before);
    assert!(rewrite_host(&mut map, "backend:3000").is_err());
    assert_eq!(map, before);
}
