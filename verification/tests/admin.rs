use palisade::admin::{metrics_response, readiness_response, route, AdminResponse, Occupancy};
use palisade::config::ValidatedUpstream;
use palisade::metrics::Metrics;
use palisade::upstream::UpstreamPool;
use palisade::uri::Uri;
use std::time::Duration;

fn dummy_pool() -> UpstreamPool {
    let upstreams = [ValidatedUpstream {
        uri: Uri::parse("http://127.0.0.1:9").unwrap(),
        weight: 1,
    }];
    UpstreamPool::from_validated(&upstreams, Duration::from_secs(30))
}

fn occupancy() -> Occupancy {
    Occupancy {
        concurrency_limit: 10,
        available_requests: 7,
        max_connections: 100,
        available_connections: 100,
    }
}

fn get(path: &str, metrics: &mut Metrics, pool: &UpstreamPool) -> AdminResponse {
    route("GET", path, metrics, pool, &occupancy())
}

#[test]
fn livez_returns_ok() {
    let response = get("/livez", &mut Metrics::new(), &dummy_pool());
    assert_eq!(response.status, 200);
    assert_eq!(response.body, "ok");
    assert_eq!(response.content_type, "text/plain; charset=utf-8");
}

#[test]
fn readyz_reflects_upstream_health() {
    let mut pool = dummy_pool();
    let mut metrics = Metrics::new();
    let response = get("/readyz", &mut metrics, &pool);
    assert_eq!(response.status, 200, "ready while an upstream is healthy");
    assert_eq!(response.body, "ready");

    pool.backend_mut(0).mark_unhealthy();
    let response = get("/readyz", &mut metrics, &pool);
    assert_eq!(response.status, 503, "not ready once every upstream is ejected");
    assert_eq!(response.body, "no healthy upstreams");
}

#[test]
fn readiness_takes_one_healthy_backend() {
    let upstream = |addr: &str| ValidatedUpstream { uri: Uri::parse(addr).unwrap(), weight: 1 };
    let mut pool = UpstreamPool::from_validated(
        &[upstream("http://a:1"), upstream("http://b:1")],
        Duration::from_secs(30),
    );
    pool.backend_mut(0).mark_unhealthy();
    assert_eq!(readiness_response(&pool).status, 200);
    let empty = UpstreamPool::from_validated(&[], Duration::from_secs(30));
    assert_eq!(readiness_response(&empty).status, 503);
}

#[test]
fn unknown_path_returns_404() {
    let response = get("/does-not-exist", &mut Metrics::new(), &dummy_pool());
    assert_eq!(response.status, 404);
    assert_eq!(response.body, "not found");
}

#[test]
fn other_methods_return_404() {
    for path in ["/metrics", "/livez", "/readyz"] {
        let response = route("POST", path, &mut Metrics::new(), &dummy_pool(), &occupancy());
        assert_eq!(response.status, 404);
    }
}

#[test]
fn metrics_endpoint_exposes_recorded_series() {
    let mut metrics = Metrics::new();
    metrics.record_response(200, Duration::from_millis(5));
    metrics.record_rate_limited();

    let response = get("/metrics", &mut metrics, &dummy_pool());

    assert_eq!(response.status, 200);
    assert!(
        response.content_type.contains("openmetrics"),
        "metrics must be served as OpenMetrics text"
    );
    let body = response.body;

    // Counter recorded before the scrape, labelled by status code.
    assert!(body.contains("palisade_requests_total"));
    assert!(body.contains("status=\"200\""));
    // Rate-limit rejection counter.
    assert!(body.contains("palisade_rate_limited_requests_total"));
    // Latency histogram series.
    assert!(body.contains("palisade_request_duration_seconds_bucket"));
    assert!(body.contains("palisade_request_duration_seconds_count"));
    // Live gauges refreshed from runtime state at scrape time.
    assert!(body.contains("palisade_in_flight_requests"));
    assert!(body.contains("palisade_open_connections"));
    assert!(body.contains("palisade_upstream_healthy"));
}

#[test]
fn a_scrape_refreshes_the_gauges() {
    let mut pool = dummy_pool();
    let mut metrics = Metrics::new();
    metrics.set_in_flight(99);
    let body = metrics_response(&mut metrics, &pool, &occupancy()).body;
    assert!(body.contains("\npalisade_in_flight_requests 3\n"));
    assert!(body.contains("\npalisade_open_connections 0\n"));
    assert!(body.contains("\npalisade_upstream_healthy{upstream=\"http://127.0.0.1:9/\"} 1\n"));

    pool.backend_mut(0).mark_unhealthy();
    let over = Occupancy {
        concurrency_limit: usize::MAX,
        available_requests: 0,
        max_connections: 5,
        available_connections: 9,
    };
    let body = metrics_response(&mut metrics, &pool, &over).body;
    assert!(body.contains("\npalisade_in_flight_requests 9223372036854775807\n"));
    assert!(body.contains("\npalisade_open_connections 0\n"));
    assert!(body.contains("\npalisade_upstream_healthy{upstream=\"http://127.0.0.1:9/\"} 0\n"));
}

#[test]
fn a_scrape_keeps_what_was_counted() {
    let mut metrics = Metrics::new();
    metrics.record_response(200, Duration::from_millis(5));
    metrics.record_rate_limited();
    let samples = |body: &str, name: &str| -> Vec<String> {
        body.lines().filter(|l| l.starts_with(name)).map(str::to_owned).collect()
    };
    for _ in 0..2 {
        let body = metrics_response(&mut metrics, &dummy_pool(), &occupancy()).body;
        assert_eq!(
            samples(&body, "palisade_requests"),
            ["palisade_requests_total{status=\"200\"} 1"]
        );
        assert_eq!(
            samples(&body, "palisade_rate_limited"),
            ["palisade_rate_limited_requests_total 1"]
        );
        assert_eq!(
            samples(&body, "palisade_upstream"),
            ["palisade_upstream_healthy{upstream=\"http://127.0.0.1:9/\"} 1"]
        );
        assert_eq!(samples(&body, "palisade_request_duration_seconds_bucket").len(), 14);
        assert!(body.contains("palisade_request_duration_seconds_bucket{le=\"0.005\"} 1\n"));
        assert!(body.contains("palisade_request_duration_seconds_bucket{le=\"0.0025\"} 0\n"));
    }
}
