//! What the proxy counts, for monitoring.
//!
//! The request path records events as they occur, and the admin listener
//! refreshes the gauges and encodes the registry on each scrape. The name of
//! every series begins with `palisade_`.
use crate::prometheus::{
    count, count_under, encode_registry, new_counter, new_counter_family, new_gauge,
    new_gauge_family, new_histogram, new_registry, observe, register_counter,
    register_counter_family, register_gauge, register_gauge_family, register_histogram, set_gauge,
    set_under, CounterFamily, GaugeFamily,
};
use crate::text::to_decimal;
use prometheus_client::metrics::counter::Counter;
use prometheus_client::metrics::gauge::Gauge;
use prometheus_client::metrics::histogram::Histogram;
use prometheus_client::registry::Registry;
use std::time::Duration;
use vstd::prelude::*;

verus! {

/// What has been recorded.
pub struct MetricsView {
    /// The responses that were served, by status.
    pub requests: Map<u16, u64>,
    /// The latencies that were observed, in order.
    pub latencies: Seq<Duration>,
    /// How many of them fell into each bucket.
    pub buckets: Seq<nat>,
    /// The requests that the rate limiter turned away.
    pub rate_limited: u64,
    /// The health of each upstream by its URI, as last set.
    pub upstream_healthy: Map<Seq<char>, bool>,
    pub in_flight: i64,
    pub open_connections: i64,
}

/// The series that are exposed: the name of each, and its help text.
pub open spec fn series() -> Seq<(Seq<char>, Seq<char>)> {
    seq![
        ("requests"@, "Responses served, labelled by HTTP status code"@),
        ("request_duration_seconds"@, "End-to-end request handling latency in seconds"@),
        ("rate_limited_requests"@, "Requests rejected by the per-IP rate limiter"@),
        ("upstream_healthy"@, "Upstream backend health (1 = healthy, 0 = unhealthy)"@),
        ("in_flight_requests"@, "Requests currently being processed"@),
        ("open_connections"@, "Client connections currently open"@),
    ]
}

/// The upper bounds of the latency buckets in microseconds, from a
/// millisecond to ten seconds.
pub open spec fn latency_bounds() -> Seq<u64> {
    seq![
        1_000u64,
        2_500,
        5_000,
        10_000,
        25_000,
        50_000,
        100_000,
        250_000,
        500_000,
        1_000_000,
        2_500_000,
        5_000_000,
        10_000_000,
    ]
}

/// A health as a gauge shows it.
pub open spec fn health_value(healthy: bool) -> int {
    if healthy {
        1
    } else {
        0
    }
}

/// The key under which responses with a status are counted.
pub open spec fn status_key(status: u16) -> (Seq<char>, Seq<char>) {
    ("status"@, crate::text::decimal(status as nat))
}

/// The key under which the health of an upstream is shown.
pub open spec fn upstream_key(upstream: Seq<char>) -> (Seq<char>, Seq<char>) {
    ("upstream"@, upstream)
}

/// The counts that a family of counters holds by status.
pub open spec fn by_status(counts: Map<(Seq<char>, Seq<char>), u64>) -> Map<u16, u64> {
    Map::new(
        |status: u16| counts.contains_key(status_key(status)),
        |status: u16| counts[status_key(status)],
    )
}

/// The health that a family of gauges holds by upstream.
pub open spec fn by_upstream(values: Map<(Seq<char>, Seq<char>), i64>) -> Map<Seq<char>, bool> {
    Map::new(
        |upstream: Seq<char>| values.contains_key(upstream_key(upstream)),
        |upstream: Seq<char>| values[upstream_key(upstream)] != 0,
    )
}

/// The metrics of the proxy, and the registry that exposes them.
#[derive(Debug)]
pub struct Metrics {
    registry: Registry,
    requests: CounterFamily,
    request_duration_seconds: Histogram,
    observed: u64,
    rate_limited: Counter,
    upstream_healthy: GaugeFamily,
    in_flight_requests: Gauge,
    open_connections: Gauge,
}

impl View for Metrics {
    type V = MetricsView;

    closed spec fn view(&self) -> MetricsView {
        MetricsView {
            requests: by_status(crate::prometheus::counter_family_state(self.requests).1),
            latencies: crate::prometheus::histogram_state(self.request_duration_seconds).1,
            buckets: crate::prometheus::histogram_counts(self.request_duration_seconds),
            rate_limited: crate::prometheus::counter_state(self.rate_limited).1,
            upstream_healthy: by_upstream(
                crate::prometheus::gauge_family_state(self.upstream_healthy).1,
            ),
            in_flight: crate::prometheus::gauge_state(self.in_flight_requests).1,
            open_connections: crate::prometheus::gauge_state(self.open_connections).1,
        }
    }
}

impl MetricsView {
    /// Nothing has been recorded.
    pub open spec fn blank() -> Self {
        MetricsView {
            requests: Map::empty(),
            latencies: Seq::empty(),
            buckets: Seq::new(latency_bounds().len() + 1, |i: int| 0nat),
            rate_limited: 0,
            upstream_healthy: Map::empty(),
            in_flight: 0,
            open_connections: 0,
        }
    }

    /// After a response was served with a status and a latency. Once as many
    /// latencies were observed as 64 bits count, no more are.
    pub open spec fn after_response(self, status: u16, latency: Duration) -> Self {
        let counted = MetricsView {
            requests: self.requests.insert(
                status,
                if self.requests.contains_key(status) {
                    crate::prometheus::stepped(self.requests[status])
                } else {
                    1
                },
            ),
            ..self
        };
        if self.latencies.len() < u64::MAX {
            MetricsView {
                latencies: self.latencies.push(latency),
                buckets: crate::prometheus::raised(
                    self.buckets,
                    crate::prometheus::bucket_of(latency_bounds(), latency),
                ),
                ..counted
            }
        } else {
            counted
        }
    }

    /// After the health of an upstream was set.
    pub open spec fn with_upstream(self, upstream: Seq<char>, healthy: bool) -> Self {
        MetricsView {
            upstream_healthy: self.upstream_healthy.insert(upstream, healthy),
            ..self
        }
    }

    /// The samples of the responses, in this order of their statuses.
    pub open spec fn request_samples(self, statuses: Seq<u16>) -> Seq<Seq<char>> {
        Seq::new(statuses.len(), |i: int| requests_line(statuses[i], self.requests[statuses[i]]))
    }

    /// The samples of the upstreams, in this order.
    pub open spec fn upstream_samples(self, upstreams: Seq<Seq<char>>) -> Seq<Seq<char>> {
        Seq::new(
            upstreams.len(),
            |i: int| upstream_line(upstreams[i], self.upstream_healthy[upstreams[i]]),
        )
    }

    /// The samples of the latencies.
    pub open spec fn latency_samples(self) -> Seq<Seq<char>> {
        crate::prometheus::histogram_samples(
            "palisade"@,
            "request_duration_seconds"@,
            self.latencies.len(),
            self.buckets,
            crate::prometheus::sum_text(self.latencies),
            crate::prometheus::bound_texts(latency_bounds()),
        )
    }

    /// The lines of a scrape, with statuses and upstreams in this order.
    pub open spec fn lines(self, statuses: Seq<u16>, upstreams: Seq<Seq<char>>) -> Seq<Seq<char>> {
        described_family(0, "counter"@, self.request_samples(statuses)) + described(
            1,
            "histogram"@,
            self.latency_samples(),
        ) + described(2, "counter"@, seq![rate_limited_line(self.rate_limited)]) + described_family(
            3,
            "gauge"@,
            self.upstream_samples(upstreams),
        ) + described(
            4,
            "gauge"@,
            seq![gauge_line("in_flight_requests"@, self.in_flight)],
        ) + described(
            5,
            "gauge"@,
            seq![gauge_line("open_connections"@, self.open_connections)],
        ) + seq!["# EOF\n"@]
    }

    /// `text` is a scrape of these metrics: exactly those lines, with each
    /// status and each upstream once and in some order.
    pub open spec fn shown_in(self, text: Seq<char>) -> bool {
        &&& crate::prometheus::numerals(
            crate::prometheus::sum_text(self.latencies),
            crate::prometheus::bound_texts(latency_bounds()),
            latency_bounds().len(),
        )
        &&& exists|statuses: Seq<u16>, upstreams: Seq<Seq<char>>|
            crate::prometheus::lists_once(statuses, self.requests.dom())
                && crate::prometheus::lists_once(upstreams, self.upstream_healthy.dom()) && text
                == crate::prometheus::flat(#[trigger] self.lines(statuses, upstreams))
    }

    /// `line` is the sample of one of these metrics.
    pub open spec fn has_sample(self, line: Seq<char>) -> bool {
        ||| exists|status: u16| #[trigger]
            self.requests.contains_key(status) && line == requests_line(
                status,
                self.requests[status],
            )
        ||| self.latency_samples().contains(line)
        ||| line == rate_limited_line(self.rate_limited)
        ||| exists|upstream: Seq<char>| #[trigger]
            self.upstream_healthy.contains_key(upstream) && line == upstream_line(
                upstream,
                self.upstream_healthy[upstream],
            )
        ||| line == gauge_line("in_flight_requests"@, self.in_flight)
        ||| line == gauge_line("open_connections"@, self.open_connections)
    }
}

/// The lines of one of the series with these samples.
pub open spec fn described(i: int, kind: Seq<char>, samples: Seq<Seq<char>>) -> Seq<Seq<char>> {
    crate::prometheus::block("palisade"@, series()[i].0, series()[i].1, kind, samples)
}

/// The lines of one of the series with these samples, if there are any.
pub open spec fn described_family(i: int, kind: Seq<char>, samples: Seq<Seq<char>>) -> Seq<
    Seq<char>,
> {
    crate::prometheus::family_block("palisade"@, series()[i].0, series()[i].1, kind, samples)
}

/// The line that shows how many responses had a status.
pub open spec fn requests_line(status: u16, n: u64) -> Seq<char> {
    crate::prometheus::sample(
        "palisade"@,
        crate::prometheus::total("requests"@),
        crate::prometheus::labelled("status"@, crate::text::decimal(status as nat)),
        crate::text::decimal(n as nat),
    )
}

/// The line that shows how many requests the rate limiter turned away.
pub open spec fn rate_limited_line(n: u64) -> Seq<char> {
    crate::prometheus::counter_sample("palisade"@, "rate_limited_requests"@, n)
}

/// The line that shows the health of an upstream.
pub open spec fn upstream_line(upstream: Seq<char>, healthy: bool) -> Seq<char> {
    crate::prometheus::sample(
        "palisade"@,
        "upstream_healthy"@,
        crate::prometheus::labelled("upstream"@, upstream),
        crate::prometheus::signed_decimal(health_value(healthy)),
    )
}

/// The line that shows a gauge.
pub open spec fn gauge_line(name: Seq<char>, n: i64) -> Seq<char> {
    crate::prometheus::gauge_sample("palisade"@, name, n)
}

/// How many responses were counted under statuses below `n`.
pub open spec fn served_below(requests: Map<u16, u64>, n: nat) -> nat
    decreases n,
{
    if n == 0 {
        0
    } else {
        served_below(requests, (n - 1) as nat) + if requests.contains_key((n - 1) as u16) {
            requests[(n - 1) as u16] as nat
        } else {
            0
        }
    }
}

/// How many responses were counted under all statuses.
pub open spec fn served(requests: Map<u16, u64>) -> nat {
    served_below(requests, 65536)
}

impl Metrics {
    /// The cells that the registry reads, in the order of the series.
    spec fn cells(&self) -> Seq<int> {
        seq![
            crate::prometheus::counter_family_state(self.requests).0,
            crate::prometheus::histogram_state(self.request_duration_seconds).0,
            crate::prometheus::counter_state(self.rate_limited).0,
            crate::prometheus::gauge_family_state(self.upstream_healthy).0,
            crate::prometheus::gauge_state(self.in_flight_requests).0,
            crate::prometheus::gauge_state(self.open_connections).0,
        ]
    }

    /// Every series is registered under the namespace of the proxy, in order
    /// and with its help text, and the registry reads what is recorded here.
    /// The counts by status and the counts by bucket both add up to the
    /// number of latencies, while that can still grow.
    pub closed spec fn well_formed(&self) -> bool {
        let registered = crate::prometheus::registered(self.registry);
        let counts = crate::prometheus::counter_family_state(self.requests).1;
        let healths = crate::prometheus::gauge_family_state(self.upstream_healthy).1;
        &&& crate::prometheus::registry_prefix(self.registry) == "palisade"@
        &&& registered == Seq::new(
            6,
            |i: int| (series()[i].0, series()[i].1, self.cells()[i]),
        )
        &&& crate::prometheus::histogram_bounds(self.request_duration_seconds) == latency_bounds()
        &&& self@.latencies.len() == self.observed
        &&& self@.buckets.len() == latency_bounds().len() + 1
        &&& crate::prometheus::cumulative(self@.buckets, self@.buckets.len())
            == self@.latencies.len()
        &&& self@.latencies.len() < u64::MAX ==> served(self@.requests) == self@.latencies.len()
        &&& forall|key: (Seq<char>, Seq<char>)| #[trigger]
            counts.contains_key(key) ==> exists|status: u16| key == #[trigger] status_key(status)
        &&& forall|key: (Seq<char>, Seq<char>)| #[trigger]
            healths.contains_key(key) ==> key == upstream_key(key.1) && 0 <= healths[key] <= 1
    }

    /// What is put before the name of each series.
    pub closed spec fn namespace(&self) -> Seq<char> {
        crate::prometheus::registry_prefix(self.registry)
    }

    /// The names and help texts of the series that the registry exposes.
    pub closed spec fn exposed(&self) -> Seq<(Seq<char>, Seq<char>)> {
        let registered = crate::prometheus::registered(self.registry);
        Seq::new(registered.len(), |i: int| (registered[i].0, registered[i].1))
    }

    /// The upper bounds of the buckets into which latencies are sorted.
    pub closed spec fn buckets(&self) -> Seq<u64> {
        crate::prometheus::histogram_bounds(self.request_duration_seconds)
    }

    /// Registers every series, with nothing recorded yet.
    pub fn new() -> (r: Self)
        ensures
            r.well_formed(),
            r.namespace() == "palisade"@,
            r.exposed() == series(),
            r.buckets() == latency_bounds(),
            r@ == MetricsView::blank(),
    {
        let mut registry = new_registry("palisade");

        let requests = new_counter_family();
        register_counter_family(
            &mut registry,
            "requests",
            "Responses served, labelled by HTTP status code",
            &requests,
        );

        let bounds: [u64; 13] = [
            1_000,
            2_500,
            5_000,
            10_000,
            25_000,
            50_000,
            100_000,
            250_000,
            500_000,
            1_000_000,
            2_500_000,
            5_000_000,
            10_000_000,
        ];
        let request_duration_seconds = new_histogram(bounds.as_slice());
        register_histogram(
            &mut registry,
            "request_duration_seconds",
            "End-to-end request handling latency in seconds",
            &request_duration_seconds,
        );

        let rate_limited = new_counter();
        register_counter(
            &mut registry,
            "rate_limited_requests",
            "Requests rejected by the per-IP rate limiter",
            &rate_limited,
        );

        let upstream_healthy = new_gauge_family();
        register_gauge_family(
            &mut registry,
            "upstream_healthy",
            "Upstream backend health (1 = healthy, 0 = unhealthy)",
            &upstream_healthy,
        );

        let in_flight_requests = new_gauge();
        register_gauge(
            &mut registry,
            "in_flight_requests",
            "Requests currently being processed",
            &in_flight_requests,
        );

        let open_connections = new_gauge();
        register_gauge(
            &mut registry,
            "open_connections",
            "Client connections currently open",
            &open_connections,
        );

        let metrics = Metrics {
            registry,
            requests,
            request_duration_seconds,
            observed: 0,
            rate_limited,
            upstream_healthy,
            in_flight_requests,
            open_connections,
        };
        proof {
            assert(bounds@ =~= latency_bounds());
            assert(crate::prometheus::registered(metrics.registry) =~= Seq::new(
                6,
                |i: int| (series()[i].0, series()[i].1, metrics.cells()[i]),
            ));
            assert(metrics@.buckets =~= MetricsView::blank().buckets);
            assert(metrics@.latencies =~= Seq::empty());
            lemma_cumulative_zero(metrics@.buckets, metrics@.buckets.len());
            assert(metrics@.requests =~= Map::empty());
            lemma_served_empty(65536);
            law_series_stay_registered(metrics);
            assert(metrics@.upstream_healthy =~= Map::empty());
        }
        metrics
    }

    /// Records a response: counts it under its status, and observes how long
    /// it took.
    pub fn record_response(&mut self, status: u16, latency: Duration)
        requires
            old(self).well_formed(),
        ensures
            final(self).well_formed(),
            final(self)@ == old(self)@.after_response(status, latency),
    {
        let ghost before = crate::prometheus::counter_family_state(self.requests).1;
        let label = to_decimal(status as u64);
        count_under(&mut self.requests, "status", label.as_str());
        if self.observed < u64::MAX {
            observe(&mut self.request_duration_seconds, latency);
            self.observed = self.observed + 1;
        }
        proof {
            let after = crate::prometheus::counter_family_state(self.requests).1;
            let n = after[status_key(status)];
            assert(after == before.insert(status_key(status), n));
            lemma_by_status(before, status, n);
            lemma_served_insert(old(self)@.requests, status, n, 65536);
            assert(self.cells() =~= old(self).cells());
            if old(self).observed < u64::MAX {
                let marks = Seq::new(
                    latency_bounds().len(),
                    |i: int| crate::prometheus::within(latency, latency_bounds()[i]),
                );
                crate::prometheus::lemma_first_of(marks);
                assert(crate::prometheus::bucket_of(latency_bounds(), latency)
                    == crate::prometheus::first_of(marks));
                lemma_cumulative_raised(
                    old(self)@.buckets,
                    crate::prometheus::bucket_of(latency_bounds(), latency),
                    old(self)@.buckets.len(),
                );
                if old(self)@.requests.contains_key(status) {
                    lemma_served_bounds(old(self)@.requests, status, 65536);
                }
            }
        }
    }

    /// Records a request that the rate limiter turned away.
    pub fn record_rate_limited(&mut self)
        requires
            old(self).well_formed(),
        ensures
            final(self).well_formed(),
            final(self)@ == (MetricsView {
                rate_limited: crate::prometheus::stepped(old(self)@.rate_limited),
                ..old(self)@
            }),
    {
        count(&mut self.rate_limited);
        assert(self.cells() =~= old(self).cells());
    }

    /// Sets the gauge of requests that are being processed.
    pub fn set_in_flight(&mut self, value: i64)
        requires
            old(self).well_formed(),
        ensures
            final(self).well_formed(),
            final(self)@ == (MetricsView { in_flight: value, ..old(self)@ }),
    {
        set_gauge(&mut self.in_flight_requests, value);
        assert(self.cells() =~= old(self).cells());
    }

    /// Sets the gauge of client connections that are open.
    pub fn set_open_connections(&mut self, value: i64)
        requires
            old(self).well_formed(),
        ensures
            final(self).well_formed(),
            final(self)@ == (MetricsView { open_connections: value, ..old(self)@ }),
    {
        set_gauge(&mut self.open_connections, value);
        assert(self.cells() =~= old(self).cells());
    }

    /// Sets the health gauge of one upstream.
    pub fn set_upstream_healthy(&mut self, upstream: &str, healthy: bool)
        requires
            old(self).well_formed(),
        ensures
            final(self).well_formed(),
            final(self)@ == old(self)@.with_upstream(upstream@, healthy),
    {
        let ghost before = crate::prometheus::gauge_family_state(self.upstream_healthy).1;
        let value: i64 = if healthy {
            1
        } else {
            0
        };
        set_under(&mut self.upstream_healthy, "upstream", upstream, value);
        proof {
            let after = crate::prometheus::gauge_family_state(self.upstream_healthy).1;
            assert(after == before.insert(upstream_key(upstream@), value));
            assert(by_upstream(after) =~= by_upstream(before).insert(upstream@, healthy));
            assert(self.cells() =~= old(self).cells());
        }
    }

    /// Encodes everything that has been recorded in the OpenMetrics text
    /// format.
    pub fn encode(&self) -> (r: String)
        requires
            self.well_formed(),
        ensures
            self@.shown_in(r@),
    {
        let text = encode_registry(
            &self.registry,
            &self.requests,
            &self.request_duration_seconds,
            &self.rate_limited,
            &self.upstream_healthy,
            &self.in_flight_requests,
            &self.open_connections,
        );
        proof {
            self.lemma_encoded(text@);
        }
        text
    }

    /// What the registry shows is a scrape of what is recorded.
    proof fn lemma_encoded(&self, text: Seq<char>)
        requires
            self.well_formed(),
            crate::prometheus::shows(
                text,
                self.registry,
                self.requests,
                self.request_duration_seconds,
                self.rate_limited,
                self.upstream_healthy,
                self.in_flight_requests,
                self.open_connections,
                crate::prometheus::sum_text(
                    crate::prometheus::histogram_state(self.request_duration_seconds).1,
                ),
                crate::prometheus::bound_texts(
                    crate::prometheus::histogram_bounds(self.request_duration_seconds),
                ),
            ),
        ensures
            self@.shown_in(text),
    {
        let registered = crate::prometheus::registered(self.registry);
        let counts = crate::prometheus::counter_family_state(self.requests).1;
        let healths = crate::prometheus::gauge_family_state(self.upstream_healthy).1;
        let sum = crate::prometheus::sum_text(self@.latencies);
        let bounds = crate::prometheus::bound_texts(latency_bounds());
        assert(registered.len() == 6);
        assert(forall|i: int|
            0 <= i < 6 ==> #[trigger] registered[i] == (
                series()[i].0,
                series()[i].1,
                self.cells()[i],
            ));
        let (counter_keys, gauge_keys) = choose|
            counter_keys: Seq<(Seq<char>, Seq<char>)>,
            gauge_keys: Seq<(Seq<char>, Seq<char>)>,
        |
            crate::prometheus::lists_once(counter_keys, counts.dom())
                && crate::prometheus::lists_once(gauge_keys, healths.dom()) && text
                == crate::prometheus::flat(
                #[trigger] crate::prometheus::exposition(
                    self.registry,
                    self.requests,
                    self.request_duration_seconds,
                    self.rate_limited,
                    self.upstream_healthy,
                    self.in_flight_requests,
                    self.open_connections,
                    sum,
                    bounds,
                    counter_keys,
                    gauge_keys,
                ),
            );
        let statuses = lemma_statuses(counts, counter_keys);
        let upstreams = lemma_upstreams(healths, gauge_keys);
        assert(crate::prometheus::counter_samples(
            "palisade"@,
            "requests"@,
            counts,
            counter_keys,
        ) =~= self@.request_samples(statuses));
        assert forall|i: int| 0 <= i < gauge_keys.len() implies
            #[trigger] crate::prometheus::gauge_samples(
            "palisade"@,
            "upstream_healthy"@,
            healths,
            gauge_keys,
        )[i] == self@.upstream_samples(upstreams)[i] by {
            assert(healths.contains_key(gauge_keys[i])) by {
                assert(gauge_keys.contains(gauge_keys[i]));
            }
        }
        assert(crate::prometheus::gauge_samples(
            "palisade"@,
            "upstream_healthy"@,
            healths,
            gauge_keys,
        ) =~= self@.upstream_samples(upstreams));
        assert(text == crate::prometheus::flat(self@.lines(statuses, upstreams)));
    }
}

/// The statuses behind an order of keys.
proof fn lemma_statuses(
    counts: Map<(Seq<char>, Seq<char>), u64>,
    keys: Seq<(Seq<char>, Seq<char>)>,
) -> (statuses: Seq<u16>)
    requires
        crate::prometheus::lists_once(keys, counts.dom()),
        forall|key: (Seq<char>, Seq<char>)| #[trigger]
            counts.contains_key(key) ==> exists|status: u16| key == #[trigger] status_key(status),
    ensures
        statuses.len() == keys.len(),
        forall|i: int|
            #![trigger statuses[i]]
            #![trigger keys[i]]
            0 <= i < keys.len() ==> keys[i] == status_key(statuses[i]),
        crate::prometheus::lists_once(statuses, by_status(counts).dom()),
{
    let statuses = Seq::new(
        keys.len(),
        |i: int| choose|status: u16| keys[i] == #[trigger] status_key(status),
    );
    assert forall|i: int| 0 <= i < keys.len() implies keys[i] == status_key(
        #[trigger] statuses[i],
    ) by {
        assert(keys.contains(keys[i]));
        assert(counts.contains_key(keys[i]));
    }
    assert forall|i: int, j: int|
        0 <= i < statuses.len() && 0 <= j < statuses.len() && i != j implies statuses[i]
        != statuses[j] by {
        assert(keys[i] != keys[j]);
    }
    assert forall|status: u16| statuses.contains(status) <==> #[trigger] by_status(
        counts,
    ).dom().contains(status) by {
        if statuses.contains(status) {
            let i = choose|i: int| 0 <= i < statuses.len() && statuses[i] == status;
            assert(keys.contains(keys[i]));
            assert(counts.dom().contains(keys[i]));
        }
        if by_status(counts).dom().contains(status) {
            assert(counts.dom().contains(status_key(status)));
            assert(keys.contains(status_key(status)));
            let i = choose|i: int| 0 <= i < keys.len() && keys[i] == status_key(status);
            lemma_status_keys(statuses[i], status);
            assert(statuses[i] == status);
        }
    }
    statuses
}

/// The upstreams behind an order of keys.
proof fn lemma_upstreams(
    healths: Map<(Seq<char>, Seq<char>), i64>,
    keys: Seq<(Seq<char>, Seq<char>)>,
) -> (upstreams: Seq<Seq<char>>)
    requires
        crate::prometheus::lists_once(keys, healths.dom()),
        forall|key: (Seq<char>, Seq<char>)| #[trigger]
            healths.contains_key(key) ==> key == upstream_key(key.1) && 0 <= healths[key] <= 1,
    ensures
        upstreams.len() == keys.len(),
        forall|i: int|
            #![trigger upstreams[i]]
            #![trigger keys[i]]
            0 <= i < keys.len() ==> keys[i] == upstream_key(upstreams[i]),
        crate::prometheus::lists_once(upstreams, by_upstream(healths).dom()),
{
    let upstreams = Seq::new(keys.len(), |i: int| keys[i].1);
    assert forall|i: int| 0 <= i < keys.len() implies keys[i] == upstream_key(
        #[trigger] upstreams[i],
    ) by {
        assert(keys.contains(keys[i]));
        assert(healths.contains_key(keys[i]));
    }
    assert forall|i: int, j: int|
        0 <= i < upstreams.len() && 0 <= j < upstreams.len() && i != j implies upstreams[i]
        != upstreams[j] by {
        assert(keys[i] != keys[j]);
    }
    assert forall|upstream: Seq<char>| upstreams.contains(upstream) <==> #[trigger] by_upstream(
        healths,
    ).dom().contains(upstream) by {
        if upstreams.contains(upstream) {
            let i = choose|i: int| 0 <= i < upstreams.len() && upstreams[i] == upstream;
            assert(keys.contains(keys[i]));
            assert(healths.dom().contains(keys[i]));
        }
        if by_upstream(healths).dom().contains(upstream) {
            assert(healths.dom().contains(upstream_key(upstream)));
            assert(keys.contains(upstream_key(upstream)));
            let i = choose|i: int| 0 <= i < keys.len() && keys[i] == upstream_key(upstream);
            assert(upstreams[i] == upstream);
        }
    }
    upstreams
}

proof fn lemma_cumulative_raised(counts: Seq<nat>, b: int, k: nat)
    requires
        0 <= b < counts.len(),
        k <= counts.len(),
    ensures
        crate::prometheus::cumulative(crate::prometheus::raised(counts, b), k)
            == crate::prometheus::cumulative(counts, k) + if b < k {
            1nat
        } else {
            0
        },
    decreases k,
{
    if k > 0 {
        lemma_cumulative_raised(counts, b, (k - 1) as nat);
    }
}

proof fn lemma_served_insert(requests: Map<u16, u64>, status: u16, v: u64, n: nat)
    requires
        n <= 65536,
    ensures
        served_below(requests.insert(status, v), n) + (if status < n && requests.contains_key(
            status,
        ) {
            requests[status] as nat
        } else {
            0
        }) == served_below(requests, n) + if status < n {
            v as nat
        } else {
            0
        },
    decreases n,
{
    if n > 0 {
        lemma_served_insert(requests, status, v, (n - 1) as nat);
    }
}

proof fn lemma_served_bounds(requests: Map<u16, u64>, status: u16, n: nat)
    requires
        n <= 65536,
        status < n,
        requests.contains_key(status),
    ensures
        requests[status] <= served_below(requests, n),
    decreases n,
{
    if status < n - 1 {
        lemma_served_bounds(requests, status, (n - 1) as nat);
    }
}

proof fn lemma_served_empty(n: nat)
    ensures
        served_below(Map::empty(), n) == 0,
    decreases n,
{
    if n > 0 {
        lemma_served_empty((n - 1) as nat);
    }
}

proof fn lemma_cumulative_zero(counts: Seq<nat>, k: nat)
    requires
        k <= counts.len(),
        forall|i: int| #![trigger counts[i]] 0 <= i < counts.len() ==> counts[i] == 0,
    ensures
        crate::prometheus::cumulative(counts, k) == 0,
    decreases k,
{
    if k > 0 {
        lemma_cumulative_zero(counts, (k - 1) as nat);
    }
}

impl Default for Metrics {
    fn default() -> (r: Self)
        ensures
            r.well_formed(),
            r@ == MetricsView::blank(),
    {
        Metrics::new()
    }
}

/// The series that are exposed, their namespace and the latency buckets stay
/// the same, whatever is recorded.
pub proof fn law_series_stay_registered(metrics: Metrics)
    requires
        metrics.well_formed(),
    ensures
        metrics.namespace() == "palisade"@,
        metrics.exposed() == series(),
        metrics.buckets() == latency_bounds(),
{
    assert(metrics.exposed() =~= series());
}

/// The counts of responses over all statuses add up to the number of
/// latencies that were observed, until that number is as great as 64 bits
/// hold. So do the counts over all buckets.
pub proof fn law_counts_add_up(metrics: Metrics)
    requires
        metrics.well_formed(),
    ensures
        metrics@.latencies.len() < u64::MAX ==> served(metrics@.requests)
            == metrics@.latencies.len(),
        metrics@.buckets.len() == latency_bounds().len() + 1,
        crate::prometheus::cumulative(metrics@.buckets, metrics@.buckets.len())
            == metrics@.latencies.len(),
{
}

/// A response raises the count of its status by one, and with it the count of
/// each bucket that has a bound that is not below its latency, or comes after
/// one that has. It is the last of the latencies, and nothing else changes.
pub proof fn law_response_is_counted(
    before: MetricsView,
    status: u16,
    latency: Duration,
    other: u16,
    i: nat,
)
    requires
        before.latencies.len() < u64::MAX,
        before.buckets.len() == latency_bounds().len() + 1,
        i < before.buckets.len(),
    ensures
        ({
            let after = before.after_response(status, latency);
            &&& after.requests.contains_key(status)
            &&& !before.requests.contains_key(status) ==> after.requests[status] == 1
            &&& before.requests.contains_key(status) && before.requests[status] < u64::MAX
                ==> after.requests[status] == before.requests[status] + 1
            &&& other != status ==> (after.requests.contains_key(other)
                <==> before.requests.contains_key(other)) && after.requests[other]
                == before.requests[other]
            &&& after.latencies == before.latencies.push(latency)
            &&& crate::prometheus::cumulative(after.buckets, i + 1)
                == crate::prometheus::cumulative(before.buckets, i + 1) + if i
                == latency_bounds().len() || exists|j: int|
                0 <= j <= i && #[trigger] crate::prometheus::within(
                    latency,
                    latency_bounds()[j],
                ) {
                1nat
            } else {
                0
            }
            &&& after.rate_limited == before.rate_limited
            &&& after.upstream_healthy == before.upstream_healthy
            &&& after.in_flight == before.in_flight
            &&& after.open_connections == before.open_connections
        }),
{
    let bounds = latency_bounds();
    let marks = Seq::new(bounds.len(), |k: int| crate::prometheus::within(latency, bounds[k]));
    let b = crate::prometheus::bucket_of(bounds, latency);
    crate::prometheus::lemma_first_of(marks);
    assert(b == crate::prometheus::first_of(marks));
    lemma_cumulative_raised(before.buckets, b, i + 1);
    if b <= i && i < bounds.len() {
        assert(marks[b]);
        assert(crate::prometheus::within(latency, bounds[b]));
    }
    if i < bounds.len() && exists|j: int|
        0 <= j <= i && #[trigger] crate::prometheus::within(latency, bounds[j]) {
        let j = choose|j: int|
            0 <= j <= i && #[trigger] crate::prometheus::within(latency, bounds[j]);
        assert(marks[j]);
    }
}

/// The names and help texts of the series hold no line feed.
proof fn lemma_series_plain()
    ensures
        crate::prometheus::plain("palisade"@),
        forall|i: int|
            #![trigger series()[i]]
            0 <= i < 6 ==> crate::prometheus::plain(series()[i].0) && crate::prometheus::plain(
                series()[i].1,
            ),
{
    reveal_strlit("palisade");
    reveal_strlit("requests");
    reveal_strlit("Responses served, labelled by HTTP status code");
    reveal_strlit("request_duration_seconds");
    reveal_strlit("End-to-end request handling latency in seconds");
    reveal_strlit("rate_limited_requests");
    reveal_strlit("Requests rejected by the per-IP rate limiter");
    reveal_strlit("upstream_healthy");
    reveal_strlit("Upstream backend health (1 = healthy, 0 = unhealthy)");
    reveal_strlit("in_flight_requests");
    reveal_strlit("Requests currently being processed");
    reveal_strlit("open_connections");
    reveal_strlit("Client connections currently open");
}

proof fn lemma_requests_line(status: u16, n: u64)
    ensures
        crate::prometheus::one_line(requests_line(status, n)),
        "palisade"@.push('_').is_prefix_of(requests_line(status, n)),
{
    lemma_series_plain();
    assert(crate::prometheus::plain(series()[0].0));
    reveal_strlit("_total");
    reveal_strlit("status");
    crate::prometheus::lemma_labelled_plain("status"@, crate::text::decimal(status as nat));
    crate::prometheus::lemma_decimal_plain(n as int);
    crate::prometheus::lemma_sample_line(
        "palisade"@,
        crate::prometheus::total("requests"@),
        crate::prometheus::labelled("status"@, crate::text::decimal(status as nat)),
        crate::text::decimal(n as nat),
    );
}

proof fn lemma_upstream_line(upstream: Seq<char>, healthy: bool)
    ensures
        crate::prometheus::one_line(upstream_line(upstream, healthy)),
        "palisade"@.push('_').is_prefix_of(upstream_line(upstream, healthy)),
{
    lemma_series_plain();
    assert(crate::prometheus::plain(series()[3].0));
    reveal_strlit("upstream");
    crate::prometheus::lemma_labelled_plain("upstream"@, upstream);
    crate::prometheus::lemma_decimal_plain(health_value(healthy));
    crate::prometheus::lemma_sample_line(
        "palisade"@,
        "upstream_healthy"@,
        crate::prometheus::labelled("upstream"@, upstream),
        crate::prometheus::signed_decimal(health_value(healthy)),
    );
}

proof fn lemma_single_lines(n: u64, a: i64, b: i64)
    ensures
        crate::prometheus::one_line(rate_limited_line(n)),
        "palisade"@.push('_').is_prefix_of(rate_limited_line(n)),
        crate::prometheus::one_line(gauge_line("in_flight_requests"@, a)),
        "palisade"@.push('_').is_prefix_of(gauge_line("in_flight_requests"@, a)),
        crate::prometheus::one_line(gauge_line("open_connections"@, b)),
        "palisade"@.push('_').is_prefix_of(gauge_line("open_connections"@, b)),
{
    lemma_series_plain();
    assert(crate::prometheus::plain(series()[2].0));
    assert(crate::prometheus::plain(series()[4].0));
    assert(crate::prometheus::plain(series()[5].0));
    reveal_strlit("_total");
    crate::prometheus::lemma_decimal_plain(n as int);
    crate::prometheus::lemma_decimal_plain(a as int);
    crate::prometheus::lemma_decimal_plain(b as int);
    crate::prometheus::lemma_sample_line(
        "palisade"@,
        crate::prometheus::total("rate_limited_requests"@),
        Seq::empty(),
        crate::text::decimal(n as nat),
    );
    crate::prometheus::lemma_sample_line(
        "palisade"@,
        "in_flight_requests"@,
        Seq::empty(),
        crate::prometheus::signed_decimal(a as int),
    );
    crate::prometheus::lemma_sample_line(
        "palisade"@,
        "open_connections"@,
        Seq::empty(),
        crate::prometheus::signed_decimal(b as int),
    );
}

impl MetricsView {
    proof fn lemma_latency_line(self, line: Seq<char>)
        requires
            crate::prometheus::numerals(
                crate::prometheus::sum_text(self.latencies),
                crate::prometheus::bound_texts(latency_bounds()),
                latency_bounds().len(),
            ),
            self.latency_samples().contains(line),
        ensures
            crate::prometheus::one_line(line),
            "palisade"@.push('_').is_prefix_of(line),
    {
        let name = "request_duration_seconds"@;
        let sum = crate::prometheus::sum_text(self.latencies);
        let bounds = crate::prometheus::bound_texts(latency_bounds());
        lemma_series_plain();
        assert(crate::prometheus::plain(series()[1].0));
        reveal_strlit("_sum");
        reveal_strlit("_count");
        reveal_strlit("_bucket");
        reveal_strlit("le");
        let k = choose|k: int|
            0 <= k < self.latency_samples().len() && self.latency_samples()[k] == line;
        if k == 0 {
            crate::prometheus::lemma_sample_line(
                "palisade"@,
                name + "_sum"@,
                Seq::empty(),
                sum,
            );
        } else if k == 1 {
            crate::prometheus::lemma_decimal_plain(self.latencies.len() as int);
            crate::prometheus::lemma_sample_line(
                "palisade"@,
                name + "_count"@,
                Seq::empty(),
                crate::text::decimal(self.latencies.len()),
            );
        } else {
            let i = k - 2;
            let n = crate::prometheus::cumulative(self.buckets, (i + 1) as nat);
            assert(line == crate::prometheus::bucket_sample(
                "palisade"@,
                name,
                self.buckets,
                bounds,
                i,
            ));
            crate::prometheus::lemma_labelled_plain(
                "le"@,
                if i < bounds.len() {
                    bounds[i]
                } else {
                    "+Inf"@
                },
            );
            crate::prometheus::lemma_decimal_plain(n as int);
            crate::prometheus::lemma_sample_line(
                "palisade"@,
                name + "_bucket"@,
                crate::prometheus::bucket_label(bounds, i),
                crate::text::decimal(n),
            );
        }
    }

    /// A sample is one line, and its name begins with that of the proxy.
    proof fn lemma_sample(self, line: Seq<char>)
        requires
            crate::prometheus::numerals(
                crate::prometheus::sum_text(self.latencies),
                crate::prometheus::bound_texts(latency_bounds()),
                latency_bounds().len(),
            ),
            self.has_sample(line),
        ensures
            crate::prometheus::one_line(line),
            "palisade"@.push('_').is_prefix_of(line),
    {
        lemma_single_lines(self.rate_limited, self.in_flight, self.open_connections);
        if self.latency_samples().contains(line) {
            self.lemma_latency_line(line);
        }
        if exists|status: u16| #[trigger]
            self.requests.contains_key(status) && line == requests_line(
                status,
                self.requests[status],
            ) {
            let status = choose|status: u16| #[trigger]
                self.requests.contains_key(status) && line == requests_line(
                    status,
                    self.requests[status],
                );
            lemma_requests_line(status, self.requests[status]);
        }
        if exists|upstream: Seq<char>| #[trigger]
            self.upstream_healthy.contains_key(upstream) && line == upstream_line(
                upstream,
                self.upstream_healthy[upstream],
            ) {
            let upstream = choose|upstream: Seq<char>| #[trigger]
                self.upstream_healthy.contains_key(upstream) && line == upstream_line(
                    upstream,
                    self.upstream_healthy[upstream],
                );
            lemma_upstream_line(upstream, self.upstream_healthy[upstream]);
        }
    }

    /// The lines of a scrape are the samples, and lines that begin with a
    /// hash.
    proof fn lemma_lines(self, statuses: Seq<u16>, upstreams: Seq<Seq<char>>)
        requires
            crate::prometheus::numerals(
                crate::prometheus::sum_text(self.latencies),
                crate::prometheus::bound_texts(latency_bounds()),
                latency_bounds().len(),
            ),
            crate::prometheus::lists_once(statuses, self.requests.dom()),
            crate::prometheus::lists_once(upstreams, self.upstream_healthy.dom()),
        ensures
            forall|k: int|
                #![trigger self.lines(statuses, upstreams)[k]]
                0 <= k < self.lines(statuses, upstreams).len() ==> sample_or_comment(
                    self,
                    self.lines(statuses, upstreams)[k],
                ),
            forall|line: Seq<char>| #[trigger]
                self.has_sample(line) ==> self.lines(statuses, upstreams).contains(line),
    {
        lemma_series_plain();
        reveal_strlit("counter");
        reveal_strlit("gauge");
        reveal_strlit("histogram");
        reveal_strlit("# EOF\n");
        let a = self.request_samples(statuses);
        let b = self.latency_samples();
        let c = seq![rate_limited_line(self.rate_limited)];
        let d = self.upstream_samples(upstreams);
        let e = seq![gauge_line("in_flight_requests"@, self.in_flight)];
        let f = seq![gauge_line("open_connections"@, self.open_connections)];
        let z = seq!["# EOF\n"@];
        assert forall|i: int| 0 <= i < a.len() implies self.has_sample(#[trigger] a[i]) by {
            assert(statuses.contains(statuses[i]));
            assert(self.requests.dom().contains(statuses[i]));
            assert(self.requests.contains_key(statuses[i]));
        }
        assert forall|i: int| 0 <= i < b.len() implies self.has_sample(#[trigger] b[i]) by {
            assert(b.contains(b[i]));
        }
        assert forall|i: int| 0 <= i < d.len() implies self.has_sample(#[trigger] d[i]) by {
            assert(upstreams.contains(upstreams[i]));
            assert(self.upstream_healthy.dom().contains(upstreams[i]));
            assert(self.upstream_healthy.contains_key(upstreams[i]));
        }
        lemma_family(self, 0, "counter"@, a);
        lemma_series(self, 1, "histogram"@, b);
        lemma_series(self, 2, "counter"@, c);
        lemma_family(self, 3, "gauge"@, d);
        lemma_series(self, 4, "gauge"@, e);
        lemma_series(self, 5, "gauge"@, f);
        let blocks = seq![
            described_family(0, "counter"@, a),
            described(1, "histogram"@, b),
            described(2, "counter"@, c),
            described_family(3, "gauge"@, d),
            described(4, "gauge"@, e),
            described(5, "gauge"@, f),
        ];
        let lines = self.lines(statuses, upstreams);
        assert(lines == blocks[0] + blocks[1] + blocks[2] + blocks[3] + blocks[4] + blocks[5] + z);
        assert(z[0].drop_last() =~= "# EOF\n"@.drop_last());
        assert(sample_or_comment(self, z[0]));
        lemma_parts(blocks[0], blocks[1], blocks[2], blocks[3], blocks[4], blocks[5], z);
        assert forall|k: int| 0 <= k < lines.len() implies sample_or_comment(
            self,
            #[trigger] lines[k],
        ) by {
            assert(lines.contains(lines[k]));
        }
        assert forall|line: Seq<char>| #[trigger] self.has_sample(line) implies lines.contains(
            line,
        ) by {
            if exists|status: u16| #[trigger]
                self.requests.contains_key(status) && line == requests_line(
                    status,
                    self.requests[status],
                ) {
                let status = choose|status: u16| #[trigger]
                    self.requests.contains_key(status) && line == requests_line(
                        status,
                        self.requests[status],
                    );
                assert(self.requests.dom().contains(status));
                let i = choose|i: int| 0 <= i < statuses.len() && statuses[i] == status;
                assert(a[i] == line);
                assert(a.contains(line));
            } else if exists|upstream: Seq<char>| #[trigger]
                self.upstream_healthy.contains_key(upstream) && line == upstream_line(
                    upstream,
                    self.upstream_healthy[upstream],
                ) {
                let upstream = choose|upstream: Seq<char>| #[trigger]
                    self.upstream_healthy.contains_key(upstream) && line == upstream_line(
                        upstream,
                        self.upstream_healthy[upstream],
                    );
                assert(self.upstream_healthy.dom().contains(upstream));
                let i = choose|i: int| 0 <= i < upstreams.len() && upstreams[i] == upstream;
                assert(d[i] == line);
                assert(d.contains(line));
            } else {
                assert(c[0] == rate_limited_line(self.rate_limited));
                assert(e[0] == gauge_line("in_flight_requests"@, self.in_flight));
                assert(f[0] == gauge_line("open_connections"@, self.open_connections));
                assert(c.contains(c[0]));
                assert(e.contains(e[0]));
                assert(f.contains(f[0]));
            }
        }
    }
}

/// A line of a scrape: a sample, or a comment that begins with a hash.
pub open spec fn sample_or_comment(metrics: MetricsView, line: Seq<char>) -> bool {
    crate::prometheus::one_line(line) && (metrics.has_sample(line) || line[0] == '#')
}

/// What a sequence of seven parts contains.
proof fn lemma_parts<T>(
    a: Seq<T>,
    b: Seq<T>,
    c: Seq<T>,
    d: Seq<T>,
    e: Seq<T>,
    f: Seq<T>,
    z: Seq<T>,
)
    ensures
        forall|x: T| #[trigger]
            (a + b + c + d + e + f + z).contains(x) <==> (a.contains(x) || b.contains(x)
                || c.contains(x) || d.contains(x) || e.contains(x) || f.contains(x)
                || z.contains(x)),
{
    broadcast use vstd::seq_lib::group_seq_properties;

}

proof fn lemma_series(
    metrics: MetricsView,
    i: int,
    kind: Seq<char>,
    samples: Seq<Seq<char>>,
)
    requires
        0 <= i < 6,
        crate::prometheus::plain(kind),
        crate::prometheus::numerals(
            crate::prometheus::sum_text(metrics.latencies),
            crate::prometheus::bound_texts(latency_bounds()),
            latency_bounds().len(),
        ),
        forall|k: int| #![trigger samples[k]] 0 <= k < samples.len() ==> metrics.has_sample(
            samples[k],
        ),
    ensures
        forall|line: Seq<char>| #[trigger]
            described(i, kind, samples).contains(line) ==> sample_or_comment(metrics, line),
        forall|line: Seq<char>| #[trigger]
            samples.contains(line) ==> described(i, kind, samples).contains(line),
{
    lemma_series_plain();
    assert(crate::prometheus::plain(series()[i].0));
    crate::prometheus::lemma_block_lines(
        "palisade"@,
        series()[i].0,
        series()[i].1,
        kind,
        samples,
    );
    let lines = described(i, kind, samples);
    assert forall|line: Seq<char>| #[trigger] lines.contains(line) implies sample_or_comment(
        metrics,
        line,
    ) by {
        let k = choose|k: int| 0 <= k < lines.len() && lines[k] == line;
        if k >= 2 {
            assert(line == samples[k - 2]);
            metrics.lemma_sample(line);
        }
    }
    assert forall|line: Seq<char>| #[trigger] samples.contains(line) implies lines.contains(
        line,
    ) by {
        let k = choose|k: int| 0 <= k < samples.len() && samples[k] == line;
        assert(lines[k + 2] == line);
    }
}

proof fn lemma_family(
    metrics: MetricsView,
    i: int,
    kind: Seq<char>,
    samples: Seq<Seq<char>>,
)
    requires
        0 <= i < 6,
        crate::prometheus::plain(kind),
        crate::prometheus::numerals(
            crate::prometheus::sum_text(metrics.latencies),
            crate::prometheus::bound_texts(latency_bounds()),
            latency_bounds().len(),
        ),
        forall|k: int| #![trigger samples[k]] 0 <= k < samples.len() ==> metrics.has_sample(
            samples[k],
        ),
    ensures
        forall|line: Seq<char>| #[trigger]
            described_family(i, kind, samples).contains(line) ==> sample_or_comment(metrics, line),
        forall|line: Seq<char>| #[trigger]
            samples.contains(line) ==> described_family(i, kind, samples).contains(line),
{
    if samples.len() > 0 {
        lemma_series(metrics, i, kind, samples);
        assert(described_family(i, kind, samples) == described(i, kind, samples));
    }
}

/// A scrape holds the sample of everything that is recorded.
pub proof fn law_scrape_shows_every_sample(metrics: MetricsView, text: Seq<char>, line: Seq<char>)
    requires
        metrics.shown_in(text),
        metrics.has_sample(line),
    ensures
        crate::prometheus::has_line(text, line),
{
    let (statuses, upstreams) = choose|statuses: Seq<u16>, upstreams: Seq<Seq<char>>|
        crate::prometheus::lists_once(statuses, metrics.requests.dom())
            && crate::prometheus::lists_once(upstreams, metrics.upstream_healthy.dom()) && text
            == crate::prometheus::flat(#[trigger] metrics.lines(statuses, upstreams));
    metrics.lemma_lines(statuses, upstreams);
    let lines = metrics.lines(statuses, upstreams);
    assert(lines.contains(line));
    let i = choose|i: int| 0 <= i < lines.len() && lines[i] == line;
    crate::prometheus::lemma_flat_has_line(lines, i);
}

/// A scrape holds nothing else: each of its lines that does not begin with a
/// hash is one of the samples, and begins with the name of the proxy.
pub proof fn law_scrape_shows_nothing_else(
    metrics: MetricsView,
    text: Seq<char>,
    line: Seq<char>,
)
    requires
        metrics.shown_in(text),
        crate::prometheus::has_line(text, line),
        crate::prometheus::one_line(line),
        line[0] != '#',
    ensures
        metrics.has_sample(line),
        "palisade"@.push('_').is_prefix_of(line),
{
    let (statuses, upstreams) = choose|statuses: Seq<u16>, upstreams: Seq<Seq<char>>|
        crate::prometheus::lists_once(statuses, metrics.requests.dom())
            && crate::prometheus::lists_once(upstreams, metrics.upstream_healthy.dom()) && text
            == crate::prometheus::flat(#[trigger] metrics.lines(statuses, upstreams));
    metrics.lemma_lines(statuses, upstreams);
    let lines = metrics.lines(statuses, upstreams);
    crate::prometheus::lemma_flat_has_no_other(lines, line);
    let k = choose|k: int| 0 <= k < lines.len() && lines[k] == line;
    assert(sample_or_comment(metrics, lines[k]));
    metrics.lemma_sample(line);
}

/// A scrape of fresh metrics holds no sample of a status or of an upstream,
/// and shows every bucket and every other sample at zero.
pub proof fn law_fresh_scrape(text: Seq<char>)
    requires
        MetricsView::blank().shown_in(text),
    ensures
        text == crate::prometheus::flat(MetricsView::blank().lines(Seq::empty(), Seq::empty())),
        forall|i: nat|
            i <= MetricsView::blank().buckets.len() ==> #[trigger] crate::prometheus::cumulative(
                MetricsView::blank().buckets,
                i,
            ) == 0,
{
    let blank = MetricsView::blank();
    let (statuses, upstreams) = choose|statuses: Seq<u16>, upstreams: Seq<Seq<char>>|
        crate::prometheus::lists_once(statuses, blank.requests.dom())
            && crate::prometheus::lists_once(upstreams, blank.upstream_healthy.dom()) && text
            == crate::prometheus::flat(#[trigger] blank.lines(statuses, upstreams));
    if statuses.len() > 0 {
        assert(statuses.contains(statuses[0]));
        assert(blank.requests.dom().contains(statuses[0]));
    }
    if upstreams.len() > 0 {
        assert(upstreams.contains(upstreams[0]));
        assert(blank.upstream_healthy.dom().contains(upstreams[0]));
    }
    assert(statuses =~= Seq::empty());
    assert(upstreams =~= Seq::empty());
    assert forall|i: nat| i <= blank.buckets.len() implies #[trigger] crate::prometheus::cumulative(
        blank.buckets,
        i,
    ) == 0 by {
        lemma_cumulative_zero(blank.buckets, i);
    }
}

/// A scrape shows one response more under a status once a response with that
/// status was recorded, and as many as before under every other status.
pub proof fn law_scrape_shows_responses(
    before: MetricsView,
    status: u16,
    latency: Duration,
    other: u16,
    text: Seq<char>,
)
    requires
        before.after_response(status, latency).shown_in(text),
    ensures
        crate::prometheus::has_line(
            text,
            requests_line(
                status,
                if before.requests.contains_key(status) {
                    crate::prometheus::stepped(before.requests[status])
                } else {
                    1
                },
            ),
        ),
        other != status && before.requests.contains_key(other) ==> crate::prometheus::has_line(
            text,
            requests_line(other, before.requests[other]),
        ),
{
    let after = before.after_response(status, latency);
    assert(after.requests.contains_key(status));
    law_scrape_shows_every_sample(after, text, requests_line(status, after.requests[status]));
    if other != status && before.requests.contains_key(other) {
        assert(after.requests.contains_key(other));
        law_scrape_shows_every_sample(after, text, requests_line(other, after.requests[other]));
    }
}

/// Two statuses are not written alike.
proof fn lemma_status_keys(a: u16, b: u16)
    requires
        status_key(a) == status_key(b),
    ensures
        a == b,
{
    crate::text::lemma_decimal_reads_back(a as u64);
    crate::text::lemma_decimal_reads_back(b as u64);
}

proof fn lemma_by_status(counts: Map<(Seq<char>, Seq<char>), u64>, status: u16, n: u64)
    ensures
        by_status(counts.insert(status_key(status), n)) == by_status(counts).insert(status, n),
{
    let after = counts.insert(status_key(status), n);
    assert forall|s: u16| by_status(after).contains_key(s) <==> by_status(counts).insert(
        status,
        n,
    ).contains_key(s) by {
        if status_key(s) == status_key(status) {
            lemma_status_keys(s, status);
        }
    }
    assert forall|s: u16| by_status(after).contains_key(s) implies #[trigger] by_status(after)[s]
        == by_status(counts).insert(status, n)[s] by {
        if status_key(s) == status_key(status) {
            lemma_status_keys(s, status);
        }
    }
    assert(by_status(after) =~= by_status(counts).insert(status, n));
}

/// Six series are exposed under the name of the proxy, each with a help text
/// that says what it shows, and latencies are sorted by thirteen bounds from a
/// millisecond to ten seconds.
pub proof fn law_what_is_exposed(metrics: Metrics)
    requires
        metrics.well_formed(),
    ensures
        metrics.namespace() == "palisade"@,
        metrics.exposed() == seq![
            ("requests"@, "Responses served, labelled by HTTP status code"@),
            ("request_duration_seconds"@, "End-to-end request handling latency in seconds"@),
            ("rate_limited_requests"@, "Requests rejected by the per-IP rate limiter"@),
            ("upstream_healthy"@, "Upstream backend health (1 = healthy, 0 = unhealthy)"@),
            ("in_flight_requests"@, "Requests currently being processed"@),
            ("open_connections"@, "Client connections currently open"@),
        ],
        metrics.buckets() == seq![
            1_000u64, 2_500, 5_000, 10_000, 25_000, 50_000, 100_000, 250_000, 500_000, 1_000_000,
            2_500_000, 5_000_000, 10_000_000,
        ],
{
    law_series_stay_registered(metrics);
}

/// Nothing is on record at first.
pub proof fn law_nothing_at_first(status: u16, upstream: Seq<char>)
    ensures
        ({
            let blank = MetricsView::blank();
            &&& !blank.requests.contains_key(status)
            &&& !blank.upstream_healthy.contains_key(upstream)
            &&& blank.latencies.len() == 0 && blank.rate_limited == 0
            &&& blank.in_flight == 0 && blank.open_connections == 0
            &&& blank.buckets.len() == 14
            &&& forall|i: int| #![trigger blank.buckets[i]] 0 <= i < 14 ==> blank.buckets[i] == 0
        }),
{
}

/// A response counts under its own status and no other, one more than before
/// and one at first. Its latency falls into the first bucket whose bound is not
/// below it, or into the last, and into no other. Once there are as many
/// latencies as 64 bits count, those stay as they are.
pub proof fn law_response_counts_once(
    before: MetricsView,
    status: u16,
    latency: Duration,
    other: u16,
    b: int,
)
    requires
        before.buckets.len() == 14,
        0 <= b < 14,
        b < 13 ==> crate::prometheus::within(latency, latency_bounds()[b]),
        forall|k: int|
            #![trigger latency_bounds()[k]]
            0 <= k < b ==> !crate::prometheus::within(latency, latency_bounds()[k]),
    ensures
        ({
            let after = before.after_response(status, latency);
            let room = before.latencies.len() < u64::MAX;
            &&& after == (MetricsView {
                requests: after.requests,
                latencies: after.latencies,
                buckets: after.buckets,
                ..before
            })
            &&& after.requests.contains_key(status)
            &&& !before.requests.contains_key(status) ==> after.requests[status] == 1
            &&& before.requests.contains_key(status) ==> after.requests[status] == (
            before.requests[status] + 1) % 0x1_0000_0000_0000_0000
            &&& other != status ==> (after.requests.contains_key(other)
                <==> before.requests.contains_key(other)) && (before.requests.contains_key(other)
                ==> after.requests[other] == before.requests[other])
            &&& !room ==> after.latencies == before.latencies && after.buckets == before.buckets
            &&& room ==> after.latencies == before.latencies.push(latency)
            &&& room ==> after.buckets.len() == 14 && after.buckets[b] == before.buckets[b] + 1
            &&& room ==> forall|k: int|
                #![trigger after.buckets[k]]
                0 <= k < 14 && k != b ==> after.buckets[k] == before.buckets[k]
        }),
{
    let bounds = latency_bounds();
    let marks = Seq::new(bounds.len(), |k: int| crate::prometheus::within(latency, bounds[k]));
    crate::prometheus::lemma_first_of(marks);
    let first = crate::prometheus::bucket_of(bounds, latency);
    assert(first == crate::prometheus::first_of(marks));
    if first < b {
        assert(marks[first]);
        assert(!crate::prometheus::within(latency, latency_bounds()[first]));
    } else if b < first {
        assert(!marks[b]);
    }
}

/// The health of one upstream is set, and nothing else.
pub proof fn law_health_is_set_for_one_upstream(
    before: MetricsView,
    upstream: Seq<char>,
    healthy: bool,
    other: Seq<char>,
)
    ensures
        ({
            let after = before.with_upstream(upstream, healthy);
            &&& after == (MetricsView { upstream_healthy: after.upstream_healthy, ..before })
            &&& after.upstream_healthy.contains_key(upstream) && after.upstream_healthy[upstream]
                == healthy
            &&& other != upstream ==> (after.upstream_healthy.contains_key(other)
                <==> before.upstream_healthy.contains_key(other)) && (
            before.upstream_healthy.contains_key(other) ==> after.upstream_healthy[other]
                == before.upstream_healthy[other])
        }),
{
}

/// The responses that were served are those under each status: none where
/// nothing is counted, and more or fewer as one count is raised or lowered.
pub proof fn law_served_is_the_sum_of_the_counts(requests: Map<u16, u64>, status: u16, n: u64)
    ensures
        served(Map::empty()) == 0,
        served(requests.insert(status, n)) + (if requests.contains_key(status) {
            requests[status] as nat
        } else {
            0
        }) == served(requests) + n,
{
    lemma_served_empty(65536);
    lemma_served_insert(requests, status, n, 65536);
}

/// How each sample is written.
pub proof fn law_samples_are_written_like_this(
    status: u16,
    n: u64,
    upstream: Seq<char>,
    gauge: i64,
)
    ensures
        requests_line(status, n) == "palisade_requests_total{status=\""@ + crate::text::decimal(
            status as nat,
        ) + "\"} "@ + crate::text::decimal(n as nat) + "\n"@,
        rate_limited_line(n) == "palisade_rate_limited_requests_total "@ + crate::text::decimal(
            n as nat,
        ) + "\n"@,
        upstream_line(upstream, true) == "palisade_upstream_healthy{upstream=\""@
            + crate::prometheus::escaped(upstream) + "\"} 1\n"@,
        upstream_line(upstream, false) == "palisade_upstream_healthy{upstream=\""@
            + crate::prometheus::escaped(upstream) + "\"} 0\n"@,
        gauge_line("in_flight_requests"@, gauge) == "palisade_in_flight_requests "@
            + crate::prometheus::signed_decimal(gauge as int) + "\n"@,
        gauge_line("open_connections"@, gauge) == "palisade_open_connections "@
            + crate::prometheus::signed_decimal(gauge as int) + "\n"@,
{
    reveal_strlit("palisade_requests_total{status=\"");
    reveal_strlit("\"} ");
    reveal_strlit("\n");
    reveal_strlit("palisade_rate_limited_requests_total ");
    reveal_strlit("palisade_upstream_healthy{upstream=\"");
    reveal_strlit("\"} 1\n");
    reveal_strlit("\"} 0\n");
    reveal_strlit("palisade_in_flight_requests ");
    reveal_strlit("palisade_open_connections ");
    reveal_strlit("palisade");
    reveal_strlit("requests");
    reveal_strlit("_total");
    reveal_strlit("status");
    reveal_strlit("rate_limited_requests");
    reveal_strlit("upstream_healthy");
    reveal_strlit("upstream");
    reveal_strlit("in_flight_requests");
    reveal_strlit("open_connections");
    let digits = crate::text::decimal(status as nat);
    crate::text::lemma_decimal_digits(status as nat);
    assert forall|i: int| 0 <= i < digits.len() implies #[trigger] digits[i] != '\\' && digits[i]
        != '"' && digits[i] != '\n' by {
        assert(crate::text::is_digit(digits[i]));
    }
    crate::prometheus::lemma_escaped_as_it_is(digits);
    assert(requests_line(status, n) =~= "palisade_requests_total{status=\""@ + digits + "\"} "@
        + crate::text::decimal(n as nat) + "\n"@);
    assert(rate_limited_line(n) =~= "palisade_rate_limited_requests_total "@
        + crate::text::decimal(n as nat) + "\n"@);
    let name = crate::prometheus::escaped(upstream);
    assert(crate::prometheus::signed_decimal(1) =~= seq!['1']);
    assert(crate::prometheus::signed_decimal(0) =~= seq!['0']);
    assert(upstream_line(upstream, true) =~= "palisade_upstream_healthy{upstream=\""@ + name
        + "\"} 1\n"@);
    assert(upstream_line(upstream, false) =~= "palisade_upstream_healthy{upstream=\""@ + name
        + "\"} 0\n"@);
    let value = crate::prometheus::signed_decimal(gauge as int);
    assert(gauge_line("in_flight_requests"@, gauge) =~= "palisade_in_flight_requests "@ + value
        + "\n"@);
    assert(gauge_line("open_connections"@, gauge) =~= "palisade_open_connections "@ + value
        + "\n"@);
}

/// A scrape holds the sample of each status, of each upstream and of both
/// gauges, that of the requests that were turned away, and the number of the
/// latencies.
pub proof fn law_scrape_holds_what_is_recorded(
    metrics: MetricsView,
    text: Seq<char>,
    status: u16,
    upstream: Seq<char>,
)
    requires
        metrics.shown_in(text),
    ensures
        metrics.requests.contains_key(status) ==> crate::prometheus::has_line(
            text,
            "palisade_requests_total{status=\""@ + crate::text::decimal(status as nat) + "\"} "@
                + crate::text::decimal(metrics.requests[status] as nat) + "\n"@,
        ),
        crate::prometheus::has_line(
            text,
            "palisade_rate_limited_requests_total "@ + crate::text::decimal(
                metrics.rate_limited as nat,
            ) + "\n"@,
        ),
        metrics.upstream_healthy.contains_key(upstream) ==> crate::prometheus::has_line(
            text,
            "palisade_upstream_healthy{upstream=\""@ + crate::prometheus::escaped(upstream) + if
                metrics.upstream_healthy[upstream] {
                "\"} 1\n"@
            } else {
                "\"} 0\n"@
            },
        ),
        crate::prometheus::has_line(
            text,
            "palisade_in_flight_requests "@ + crate::prometheus::signed_decimal(
                metrics.in_flight as int,
            ) + "\n"@,
        ),
        crate::prometheus::has_line(
            text,
            "palisade_open_connections "@ + crate::prometheus::signed_decimal(
                metrics.open_connections as int,
            ) + "\n"@,
        ),
        crate::prometheus::has_line(
            text,
            "palisade_request_duration_seconds_count "@ + crate::text::decimal(
                metrics.latencies.len(),
            ) + "\n"@,
        ),
{
    law_samples_are_written_like_this(
        status,
        metrics.requests[status],
        upstream,
        metrics.in_flight,
    );
    law_samples_are_written_like_this(
        status,
        metrics.rate_limited,
        upstream,
        metrics.open_connections,
    );
    if metrics.requests.contains_key(status) {
        law_scrape_shows_every_sample(
            metrics,
            text,
            requests_line(status, metrics.requests[status]),
        );
    }
    if metrics.upstream_healthy.contains_key(upstream) {
        law_scrape_shows_every_sample(
            metrics,
            text,
            upstream_line(upstream, metrics.upstream_healthy[upstream]),
        );
    }
    law_scrape_shows_every_sample(metrics, text, rate_limited_line(metrics.rate_limited));
    law_scrape_shows_every_sample(
        metrics,
        text,
        gauge_line("in_flight_requests"@, metrics.in_flight),
    );
    law_scrape_shows_every_sample(
        metrics,
        text,
        gauge_line("open_connections"@, metrics.open_connections),
    );
    reveal_strlit("palisade_request_duration_seconds_count ");
    reveal_strlit("palisade");
    reveal_strlit("request_duration_seconds");
    reveal_strlit("_count");
    reveal_strlit("\n");
    let count = crate::prometheus::sample(
        "palisade"@,
        "request_duration_seconds"@ + "_count"@,
        Seq::empty(),
        crate::text::decimal(metrics.latencies.len()),
    );
    assert(metrics.latency_samples()[1] == count);
    assert(metrics.latency_samples().contains(count));
    assert(count =~= "palisade_request_duration_seconds_count "@ + crate::text::decimal(
        metrics.latencies.len(),
    ) + "\n"@);
    law_scrape_shows_every_sample(metrics, text, count);
}

/// A scrape holds for each bound, and for none at all, how many latencies
/// were not above it.
pub proof fn law_scrape_holds_every_bucket(metrics: MetricsView, text: Seq<char>, i: int)
    requires
        metrics.shown_in(text),
        metrics.buckets.len() == 14,
        0 <= i < 14,
    ensures
        crate::prometheus::has_line(
            text,
            "palisade_request_duration_seconds_bucket{le=\""@ + crate::prometheus::escaped(
                if i < 13 {
                    crate::prometheus::bound_texts(latency_bounds())[i]
                } else {
                    "+Inf"@
                },
            ) + "\"} "@ + crate::text::decimal(
                crate::prometheus::cumulative(metrics.buckets, (i + 1) as nat),
            ) + "\n"@,
        ),
{
    reveal_strlit("palisade_request_duration_seconds_bucket{le=\"");
    reveal_strlit("\"} ");
    reveal_strlit("\n");
    reveal_strlit("palisade");
    reveal_strlit("request_duration_seconds");
    reveal_strlit("_bucket");
    reveal_strlit("le");
    let bounds = crate::prometheus::bound_texts(latency_bounds());
    let line = crate::prometheus::bucket_sample(
        "palisade"@,
        "request_duration_seconds"@,
        metrics.buckets,
        bounds,
        i,
    );
    assert(metrics.latency_samples()[i + 2] == line);
    assert(metrics.latency_samples().contains(line));
    let n = crate::text::decimal(crate::prometheus::cumulative(metrics.buckets, (i + 1) as nat));
    let label = if i < 13 {
        bounds[i]
    } else {
        "+Inf"@
    };
    assert(line =~= "palisade_request_duration_seconds_bucket{le=\""@
        + crate::prometheus::escaped(label) + "\"} "@ + n + "\n"@);
    law_scrape_shows_every_sample(metrics, text, line);
}

} // verus!
