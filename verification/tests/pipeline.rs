use hyper::header::{HeaderMap, HeaderName, HeaderValue};
use palisade::balancer::LoadBalancer;
use palisade::config::{RuntimeConfig, ValidatedUpstream};
use palisade::error::ProxyError;
use palisade::proxy::{
    begin_request, begin_request_at, body_limit, build_response, clean_response,
    complete_response, identify, inbound_request_id, mask_response, masking_failed,
    prepare_headers, request_id, settle, settle_at, BodyPlan, HttpVersion, Outcome,
};
use palisade::sequence::RequestIds;
use palisade::upstream::UpstreamPool;
use palisade::uri::Uri;
use std::time::Duration;

fn config() -> RuntimeConfig {
    RuntimeConfig {
        blocked_headers: vec![HeaderName::from_static("x-bad-header")],
        blocked_params: vec!["secret_key".into()],
        strip_response_headers: vec![HeaderName::from_static("server")],
        max_body_size: 1024,
        masking: true,
        mask_max_body_size: 100,
        trust_forwarded_headers: false,
        failure_threshold: 2,
        healthy_threshold: 2,
        request_timeout: Duration::from_secs(30),
        connect_timeout: Duration::from_secs(5),
        pool_idle_timeout: Duration::from_secs(90),
        pool_max_idle_per_host: 32,
    }
}

fn balancer(addrs: &[&str]) -> LoadBalancer {
    let upstreams: Vec<ValidatedUpstream> = addrs
        .iter()
        .map(|a| ValidatedUpstream { uri: Uri::parse(a).unwrap(), weight: 1 })
        .collect();
    LoadBalancer::new(UpstreamPool::from_validated(&upstreams, Duration::from_secs(30)))
}

fn headers(fields: &[(&'static str, &'static str)]) -> HeaderMap<HeaderValue> {
    let mut map = HeaderMap::new();
    for (name, value) in fields {
        map.append(HeaderName::from_static(name), HeaderValue::from_static(value));
    }
    map
}

#[test]
fn a_request_is_rewritten_for_its_backend() {
    let mut balancer = balancer(&["http://b1:3000", "https://b2:3443"]);
    let uri = Uri::parse("http://public.example/a/b?x=1&y=2").unwrap();
    let inbound = [
        ("host", "public.example"),
        ("connection", "close"),
        ("x-forwarded-for", "10.0.0.1"),
        ("accept", "*/*"),
    ];
    let mut first = headers(&inbound);
    let forward =
        begin_request(&mut balancer, &mut first, &uri, "192.0.2.7", true, None, &config())
            .unwrap();
    assert_eq!(forward.upstream, 0);
    assert_eq!(forward.uri.text(), "http://b1:3000/a/b?x=1&y=2");
    assert_eq!(forward.uri.query(), Some("x=1&y=2"));
    assert_eq!(forward.version, HttpVersion::Http11);
    assert_eq!(
        first,
        headers(&[
            ("host", "b1:3000"),
            ("x-forwarded-for", "192.0.2.7"),
            ("x-forwarded-proto", "https"),
            ("x-forwarded-host", "public.example"),
            ("accept", "*/*"),
        ])
    );

    let mut second = headers(&inbound);
    let forward =
        begin_request(&mut balancer, &mut second, &uri, "192.0.2.7", false, None, &config())
            .unwrap();
    assert_eq!(forward.upstream, 1);
    assert_eq!(forward.uri.text(), "https://b2:3443/a/b?x=1&y=2");
    assert_eq!(second.get("host").unwrap(), "b2:3443");
    assert_eq!(second.get("x-forwarded-proto").unwrap(), "http");
}

#[test]
fn a_refused_request_takes_no_turn() {
    let mut balancer = balancer(&["http://b1:3000", "http://b2:3000"]);
    let uri = Uri::parse("/?secret_key=1").unwrap();
    let mut map = headers(&[("connection", "close")]);
    let refused = begin_request(&mut balancer, &mut map, &uri, "::1", false, None, &config());
    assert_eq!(refused.unwrap_err(), ProxyError::BlockedParam("secret_key".into()));
    assert_eq!(map, headers(&[("connection", "close")]));
    assert_eq!(balancer.next(), Ok(0));
}

#[test]
fn a_limited_client_is_told_when_to_retry() {
    let mut balancer = balancer(&["http://b1:3000"]);
    let uri = Uri::parse("/").unwrap();
    let mut map = headers(&[]);
    let refused =
        begin_request(&mut balancer, &mut map, &uri, "::1", false, Some(1500), &config());
    assert_eq!(refused.unwrap_err(), ProxyError::RateLimited { retry_after_ms: 1500 });
}

#[test]
fn without_a_backend_a_request_is_refused() {
    let mut balancer = balancer(&["http://b1:3000"]);
    balancer.backend_mut(0).mark_unhealthy_at(0);
    let uri = Uri::parse("/").unwrap();
    let mut map = headers(&[("connection", "close")]);
    let refused =
        begin_request_at(&mut balancer, &[1], &mut map, &uri, "::1", false, None, &config());
    assert_eq!(refused.unwrap_err(), ProxyError::NoHealthyUpstream);
    assert_eq!(map, headers(&[("connection", "close")]));
}

#[test]
fn a_backend_without_an_authority_is_an_error() {
    let mut balancer = balancer(&["/nowhere"]);
    let uri = Uri::parse("/").unwrap();
    let mut map = headers(&[("connection", "close")]);
    let refused =
        begin_request_at(&mut balancer, &[0], &mut map, &uri, "::1", false, None, &config());
    assert_eq!(
        refused.unwrap_err(),
        ProxyError::InvalidUpstream("upstream has no authority".into())
    );
    assert_eq!(map, headers(&[("connection", "close")]));
}

#[test]
fn blocked_headers_do_not_go_upstream() {
    let mut config = config();
    config.blocked_headers = vec![HeaderName::from_static("x-forwarded-host")];
    let mut map = headers(&[("host", "public.example")]);
    prepare_headers(&mut map, "192.0.2.7", false, "b1:3000", &config).unwrap();
    assert_eq!(
        map,
        headers(&[
            ("host", "b1:3000"),
            ("x-forwarded-for", "192.0.2.7"),
            ("x-forwarded-proto", "http"),
        ])
    );
}

#[test]
fn failures_and_timeouts_eject_a_backend() {
    let mut balancer = balancer(&["http://b1:3000"]);
    assert_eq!(
        settle(&mut balancer, 0, Outcome::Failed("connection refused".into()), &config()),
        Err(ProxyError::Upstream("connection refused".into()))
    );
    assert!(balancer.pool().all()[0].is_healthy());
    assert_eq!(
        settle_at(&mut balancer, 0, Outcome::TimedOut, &config(), 500),
        Err(ProxyError::Timeout(Duration::from_secs(30)))
    );
    assert!(!balancer.pool().all()[0].is_healthy());
    assert!(!balancer.pool().all()[0].is_eligible_at(30_499));
    assert!(balancer.pool().all()[0].is_eligible_at(30_500));
}

#[test]
fn responses_readmit_a_backend() {
    let mut balancer = balancer(&["http://b1:3000"]);
    balancer.backend_mut(0).mark_unhealthy();
    assert_eq!(settle(&mut balancer, 0, Outcome::Responded, &config()), Ok(()));
    assert!(!balancer.pool().all()[0].is_healthy());
    assert_eq!(settle(&mut balancer, 0, Outcome::Responded, &config()), Ok(()));
    assert!(balancer.pool().all()[0].is_healthy());
}

#[test]
fn an_oversized_body_is_not_held_against_the_backend() {
    let mut balancer = balancer(&["http://b1:3000"]);
    for _ in 0..5 {
        assert_eq!(
            settle(&mut balancer, 0, Outcome::BodyOverLimit, &config()),
            Err(ProxyError::BodyTooLarge { limit: 1024 })
        );
    }
    assert!(balancer.pool().all()[0].is_healthy());
}

#[test]
fn limits_become_buffer_sizes() {
    assert_eq!(body_limit(0), 0);
    assert_eq!(body_limit(1024), 1024);
    assert_eq!(body_limit(u64::MAX), usize::MAX);
}

#[test]
fn an_acceptable_inbound_id_is_propagated() {
    let map = headers(&[("x-request-id", " \tabc-123~ ")]);
    assert_eq!(inbound_request_id(&map), Some("abc-123~".to_string()));
    assert_eq!(request_id(&map, 7), "abc-123~");
}

#[test]
fn other_inbound_ids_are_replaced() {
    for text in ["", "   ", "two words", "tab\tbed"] {
        assert_eq!(inbound_request_id(&headers(&[("x-request-id", text)])), None);
        assert_eq!(request_id(&headers(&[("x-request-id", text)]), 42), "42");
    }
    assert_eq!(request_id(&headers(&[]), 0), "0");
    assert_eq!(request_id(&headers(&[]), u64::MAX), "18446744073709551615");
    let mut map = HeaderMap::new();
    map.insert("x-request-id", HeaderValue::from_bytes(b"caf\xc3\xa9").unwrap());
    assert_eq!(inbound_request_id(&map), None);
}

#[test]
fn inbound_ids_are_bounded() {
    let mut map = HeaderMap::new();
    map.insert("x-request-id", HeaderValue::from_str(&"a".repeat(128)).unwrap());
    assert_eq!(inbound_request_id(&map), Some("a".repeat(128)));
    map.insert("x-request-id", HeaderValue::from_str(&"a".repeat(129)).unwrap());
    assert_eq!(inbound_request_id(&map), None);
}

#[test]
fn responses_are_cleaned() {
    let mut map = headers(&[
        ("connection", "x-internal"),
        ("x-internal", "1"),
        ("server", "nginx"),
        ("etag", "abc"),
    ]);
    clean_response(&mut map, &config());
    assert_eq!(map, headers(&[("etag", "abc")]));
}

#[test]
fn short_plain_text_is_masked() {
    let plan = BodyPlan::Mask { ceiling: 100 };
    for kind in ["text/plain", "text/html; charset=utf-8", "application/x-www-form-urlencoded"] {
        let map = headers(&[("content-type", kind), ("content-length", "100")]);
        assert_eq!(build_response(&map, &config()), plan);
    }
    for coding in ["identity", "IDENTITY", " identity ", ""] {
        let map = headers(&[
            ("content-type", "text/plain"),
            ("content-length", "5"),
            ("content-encoding", coding),
        ]);
        assert_eq!(build_response(&map, &config()), plan);
    }
}

#[test]
fn everything_else_is_streamed() {
    let streamed: [&[(&'static str, &'static str)]; 7] = [
        &[],
        &[("content-type", "text/plain")],
        &[("content-length", "5")],
        &[("content-type", "text/plain"), ("content-length", "101")],
        &[("content-type", "application/json"), ("content-length", "5")],
        &[("content-type", "text/plain"), ("content-length", "five")],
        &[("content-type", "text/plain"), ("content-length", "5"), ("content-encoding", "gzip")],
    ];
    for fields in streamed {
        assert_eq!(build_response(&headers(fields), &config()), BodyPlan::Stream);
    }
    let mut unmasked = config();
    unmasked.masking = false;
    let map = headers(&[("content-type", "text/plain"), ("content-length", "5")]);
    assert_eq!(build_response(&map, &unmasked), BodyPlan::Stream);
}

#[test]
fn a_response_carries_the_id_of_its_request() {
    let mut map = headers(&[("content-length", "10"), ("x-request-id", "upstream")]);
    complete_response(&mut map, None, "abc", 9).unwrap();
    assert_eq!(map, headers(&[("content-length", "10"), ("x-request-id", "abc")]));

    complete_response(&mut map, Some(b"twelve bytes"), "line\nbreak", 9).unwrap();
    assert_eq!(map, headers(&[("content-length", "12"), ("x-request-id", "9")]));
}

#[test]
fn a_masked_body_is_measured_after_masking() {
    let mut map = headers(&[("content-length", "11"), ("content-type", "text/plain")]);
    let mask = |text: &str| text.replace("1234", "[card]");
    let sent = mask_response(&mut map, "n\u{e9}e 1234 ok".as_bytes(), mask, "abc", 9).unwrap();
    assert_eq!(sent, "n\u{e9}e [card] ok".as_bytes());
    assert_eq!(
        map,
        headers(&[
            ("content-length", "14"),
            ("content-type", "text/plain"),
            ("x-request-id", "abc"),
        ])
    );

    // What is not UTF-8 reaches the mask, and the client, as replacement
    // characters of three bytes each.
    let mut map = headers(&[("content-length", "4")]);
    let mask = |text: &str| {
        assert_eq!(text, "a\u{fffd}b\u{fffd}");
        text.to_owned()
    };
    let sent = mask_response(&mut map, b"a\xffb\xfe", mask, "abc", 9).unwrap();
    assert_eq!(sent, b"a\xef\xbf\xbdb\xef\xbf\xbd");
    assert_eq!(map.get("content-length").unwrap(), "8");

    let mut map = headers(&[("content-length", "4")]);
    let sent = mask_response(&mut map, b"text", |_: &str| String::new(), "abc", 9).unwrap();
    assert!(sent.is_empty());
    assert_eq!(map.get("content-length").unwrap(), "0");
}

#[test]
fn a_failed_masking_says_why() {
    assert_eq!(
        masking_failed("length limit exceeded"),
        ProxyError::Internal(
            "failed to read upstream body for masking: length limit exceeded".into()
        )
    );
}

#[test]
fn a_full_header_map_ends_the_request() {
    let full = ProxyError::Internal("too many headers".into());
    let mut crowded = HeaderMap::new();
    for i in 0..24_576 {
        let name = HeaderName::from_bytes(format!("x-{}", i).as_bytes()).unwrap();
        crowded.insert(name, HeaderValue::from_static("1"));
    }
    let before = crowded.clone();
    assert_eq!(complete_response(&mut crowded, Some(b"abcde"), "abc", 1).as_ref(), Err(&full));
    assert_eq!(crowded, before);
    let masked = mask_response(&mut crowded, b"text", |text: &str| text.to_owned(), "abc", 1);
    assert_eq!(masked, Err(ProxyError::Internal("too many headers".into())));
    assert_eq!(crowded, before);
    let mut balancer = balancer(&["http://b1:3000", "http://b2:3000"]);
    let uri = Uri::parse("/").unwrap();
    let result =
        begin_request(&mut balancer, &mut crowded, &uri, "::1", false, None, &config());
    assert_eq!(result.unwrap_err(), full);
    // The backend had been chosen by then.
    assert_eq!(balancer.next(), Ok(1));
}

#[test]
fn every_line_of_content_encoding_counts() {
    let base = [("content-type", "text/plain"), ("content-length", "5")];
    let with = |codings: &[&'static str]| {
        let mut map = headers(&base);
        for coding in codings {
            map.append("content-encoding", HeaderValue::from_static(coding));
        }
        build_response(&map, &config())
    };
    assert_eq!(with(&["identity", "gzip"]), BodyPlan::Stream);
    assert_eq!(with(&["gzip", "identity"]), BodyPlan::Stream);
    assert_eq!(with(&["identity, br"]), BodyPlan::Stream);
    assert_eq!(with(&["identity", "", "Identity"]), BodyPlan::Mask { ceiling: 100 });
    let mut map = headers(&base);
    map.append("content-encoding", HeaderValue::from_bytes(&[0xff]).unwrap());
    assert_eq!(build_response(&map, &config()), BodyPlan::Stream);
}

#[test]
fn request_numbers_differ_and_grow() {
    let mut ids = RequestIds::new();
    assert_eq!(ids.assign(), 1);
    assert_eq!(ids.assign(), 2);
    assert_eq!(identify(&mut ids, &headers(&[])), (3, "3".to_string()));
    // A request with an identifier of its own uses up a number, too.
    let named = headers(&[("x-request-id", "abc")]);
    assert_eq!(identify(&mut ids, &named), (4, "abc".to_string()));
    assert_eq!(identify(&mut ids, &headers(&[])), (5, "5".to_string()));
}

#[test]
fn generated_ids_grow_by_the_requests_between() {
    let mut ids = RequestIds::new();
    let plain = headers(&[]);
    let (seq, id) = identify(&mut ids, &plain);
    let mut first = HeaderMap::new();
    complete_response(&mut first, None, &id, seq).unwrap();
    for _ in 0..3 {
        ids.assign();
    }
    let (seq, id) = identify(&mut ids, &plain);
    let mut second = HeaderMap::new();
    complete_response(&mut second, None, &id, seq).unwrap();
    let number = |map: &HeaderMap<HeaderValue>| -> u64 {
        map.get("x-request-id").unwrap().to_str().unwrap().parse().unwrap()
    };
    assert_eq!(number(&second), number(&first) + 1 + 3);
}
