use palisade::metrics::Metrics;
use std::time::Duration;

fn has_line(text: &str, line: &str) -> bool {
    text.lines().any(|l| l == line)
}

#[test]
fn fresh_metrics_show_every_single_series() {
    let text = Metrics::new().encode();
    assert!(has_line(
        &text,
        "# HELP palisade_rate_limited_requests Requests rejected by the per-IP rate limiter."
    ));
    assert!(has_line(&text, "# TYPE palisade_rate_limited_requests counter"));
    assert!(has_line(&text, "palisade_rate_limited_requests_total 0"));
    assert!(has_line(
        &text,
        "# HELP palisade_request_duration_seconds End-to-end request handling latency in seconds."
    ));
    assert!(has_line(&text, "# TYPE palisade_request_duration_seconds histogram"));
    assert!(has_line(
        &text,
        "# HELP palisade_in_flight_requests Requests currently being processed."
    ));
    assert!(has_line(&text, "palisade_in_flight_requests 0"));
    assert!(has_line(
        &text,
        "# HELP palisade_open_connections Client connections currently open."
    ));
    assert!(has_line(&text, "palisade_open_connections 0"));
    assert!(text.ends_with("# EOF\n"));
    assert_eq!(Metrics::default().encode(), text);
}

#[test]
fn responses_are_counted_by_status() {
    let mut metrics = Metrics::new();
    metrics.record_response(200, Duration::from_millis(1));
    metrics.record_response(503, Duration::from_millis(1));
    metrics.record_response(200, Duration::from_millis(1));
    let text = metrics.encode();
    assert!(has_line(
        &text,
        "# HELP palisade_requests Responses served, labelled by HTTP status code."
    ));
    assert!(has_line(&text, "palisade_requests_total{status=\"200\"} 2"));
    assert!(has_line(&text, "palisade_requests_total{status=\"503\"} 1"));
    assert!(!text.contains("status=\"404\""));
}

#[test]
fn latencies_fall_into_their_buckets() {
    let mut metrics = Metrics::new();
    metrics.record_response(200, Duration::from_millis(5));
    metrics.record_response(200, Duration::from_millis(250));
    metrics.record_response(200, Duration::from_secs(11));
    let text = metrics.encode();
    assert!(has_line(&text, "palisade_request_duration_seconds_count 3"));
    let expected = [
        ("0.001", 0),
        ("0.0025", 0),
        ("0.005", 1),
        ("0.01", 1),
        ("0.025", 1),
        ("0.05", 1),
        ("0.1", 1),
        ("0.25", 2),
        ("0.5", 2),
        ("1.0", 2),
        ("2.5", 2),
        ("5.0", 2),
        ("10.0", 2),
        ("+Inf", 3),
    ];
    for (bound, n) in expected {
        let line = format!("palisade_request_duration_seconds_bucket{{le=\"{}\"}} {}", bound, n);
        assert!(has_line(&text, &line), "{}", line);
    }
    assert_eq!(text.matches("_bucket{").count(), 14);
}

#[test]
fn rate_limited_requests_are_counted() {
    let mut metrics = Metrics::new();
    metrics.record_rate_limited();
    metrics.record_rate_limited();
    assert!(has_line(&metrics.encode(), "palisade_rate_limited_requests_total 2"));
}

#[test]
fn gauges_show_what_was_last_set() {
    let mut metrics = Metrics::new();
    metrics.set_in_flight(4);
    metrics.set_in_flight(-1);
    metrics.set_open_connections(i64::MIN);
    let text = metrics.encode();
    assert!(has_line(&text, "palisade_in_flight_requests -1"));
    assert!(has_line(&text, "palisade_open_connections -9223372036854775808"));
}

#[test]
fn upstreams_are_shown_by_their_uri() {
    let mut metrics = Metrics::new();
    metrics.set_upstream_healthy("http://a:1/", true);
    metrics.set_upstream_healthy("http://b:1/", true);
    metrics.set_upstream_healthy("http://b:1/", false);
    metrics.set_upstream_healthy("odd\"\\\n", true);
    let text = metrics.encode();
    assert!(has_line(
        &text,
        "# HELP palisade_upstream_healthy Upstream backend health (1 = healthy, 0 = unhealthy)."
    ));
    assert!(has_line(&text, "palisade_upstream_healthy{upstream=\"http://a:1/\"} 1"));
    assert!(has_line(&text, "palisade_upstream_healthy{upstream=\"http://b:1/\"} 0"));
    assert!(has_line(&text, "palisade_upstream_healthy{upstream=\"odd\\\"\\\\\\n\"} 1"));
}

#[test]
fn a_fresh_scrape_is_exactly_this() {
    let mut expected = String::new();
    expected += "# HELP palisade_request_duration_seconds ";
    expected += "End-to-end request handling latency in seconds.\n";
    expected += "# TYPE palisade_request_duration_seconds histogram\n";
    expected += "palisade_request_duration_seconds_sum 0.0\n";
    expected += "palisade_request_duration_seconds_count 0\n";
    for bound in [
        "0.001", "0.0025", "0.005", "0.01", "0.025", "0.05", "0.1", "0.25", "0.5", "1.0", "2.5",
        "5.0", "10.0", "+Inf",
    ] {
        expected += &format!("palisade_request_duration_seconds_bucket{{le=\"{}\"}} 0\n", bound);
    }
    expected += "# HELP palisade_rate_limited_requests ";
    expected += "Requests rejected by the per-IP rate limiter.\n";
    expected += "# TYPE palisade_rate_limited_requests counter\n";
    expected += "palisade_rate_limited_requests_total 0\n";
    expected += "# HELP palisade_in_flight_requests Requests currently being processed.\n";
    expected += "# TYPE palisade_in_flight_requests gauge\n";
    expected += "palisade_in_flight_requests 0\n";
    expected += "# HELP palisade_open_connections Client connections currently open.\n";
    expected += "# TYPE palisade_open_connections gauge\n";
    expected += "palisade_open_connections 0\n";
    expected += "# EOF\n";
    assert_eq!(Metrics::new().encode(), expected);
}

#[test]
fn counts_over_statuses_add_up_to_the_observations() {
    let mut metrics = Metrics::new();
    for (status, ms) in [(200, 1), (200, 300), (404, 20), (503, 2), (200, 20_000)] {
        metrics.record_response(status, Duration::from_millis(ms));
    }
    let text = metrics.encode();
    let served: u64 = text
        .lines()
        .filter(|l| l.starts_with("palisade_requests_total{"))
        .map(|l| l.rsplit(' ').next().unwrap().parse::<u64>().unwrap())
        .sum();
    assert_eq!(served, 5);
    assert!(has_line(&text, "palisade_request_duration_seconds_count 5"));
    assert!(has_line(&text, "palisade_request_duration_seconds_bucket{le=\"+Inf\"} 5"));
    assert!(has_line(&text, "palisade_request_duration_seconds_bucket{le=\"10.0\"} 4"));
    assert!(has_line(&text, "palisade_request_duration_seconds_sum 20.323"));
    assert!(text.lines().all(|l| l.starts_with('#') || l.starts_with("palisade_")));
}
