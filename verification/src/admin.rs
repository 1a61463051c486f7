//! The answers of the administrative listener.
//!
//! It is asked for three things: the metrics, whether the process is alive,
//! and whether it is ready to serve, which it is while a backend is healthy.
use crate::metrics::Metrics;
use crate::text::same_text;
use crate::upstream::UpstreamPool;
use vstd::prelude::*;

verus! {

/// How much of the limits on requests and connections is in use.
#[derive(Debug)]
pub struct Occupancy {
    /// The greatest number of requests in flight.
    pub concurrency_limit: usize,
    /// How many more requests may be taken on.
    pub available_requests: usize,
    /// The greatest number of open connections.
    pub max_connections: usize,
    /// How many more connections may be opened.
    pub available_connections: usize,
}

/// An answer of the administrative listener.
#[derive(Debug)]
pub struct AdminResponse {
    pub status: u16,
    pub content_type: &'static str,
    pub body: String,
}

/// What is in use of a limit, as a gauge can show it.
pub open spec fn in_use(limit: usize, available: usize) -> i64 {
    if limit <= available {
        0
    } else if limit - available > i64::MAX {
        i64::MAX
    } else {
        (limit - available) as i64
    }
}

/// Some backend is healthy.
pub open spec fn any_healthy(pool: Seq<crate::upstream::UpstreamView>) -> bool {
    exists|i: int| 0 <= i < pool.len() && (#[trigger] pool[i]).healthy
}

/// The metrics once the health of each backend has been set.
pub open spec fn with_pool(
    metrics: crate::metrics::MetricsView,
    pool: Seq<crate::upstream::UpstreamView>,
) -> crate::metrics::MetricsView
    decreases pool.len(),
{
    if pool.len() == 0 {
        metrics
    } else {
        with_pool(metrics, pool.drop_last()).with_upstream(
            pool.last().uri.text,
            pool.last().healthy,
        )
    }
}

/// The metrics once all gauges have been refreshed.
pub open spec fn refreshed(
    metrics: crate::metrics::MetricsView,
    pool: Seq<crate::upstream::UpstreamView>,
    occupancy: Occupancy,
) -> crate::metrics::MetricsView {
    with_pool(
        crate::metrics::MetricsView {
            in_flight: in_use(occupancy.concurrency_limit, occupancy.available_requests),
            open_connections: in_use(occupancy.max_connections, occupancy.available_connections),
            ..metrics
        },
        pool,
    )
}

/// `response` is a plain text with this status.
pub open spec fn is_text_response(response: AdminResponse, status: u16, body: Seq<char>) -> bool {
    &&& response.status == status
    &&& response.content_type@ == "text/plain; charset=utf-8"@
    &&& response.body@ == body
}

/// `response` is the exposition of the metrics.
pub open spec fn is_exposition(
    response: AdminResponse,
    metrics: crate::metrics::MetricsView,
) -> bool {
    &&& response.status == 200
    &&& response.content_type@ == "application/openmetrics-text; version=1.0.0; charset=utf-8"@
    &&& metrics.shown_in(response.body@)
}

/// `response` answers a readiness probe.
pub open spec fn is_readiness(
    response: AdminResponse,
    pool: Seq<crate::upstream::UpstreamView>,
) -> bool {
    if any_healthy(pool) {
        is_text_response(response, 200, "ready"@)
    } else {
        is_text_response(response, 503, "no healthy upstreams"@)
    }
}

/// Makes a plain-text response.
fn text_response(status: u16, body: &str) -> (r: AdminResponse)
    ensures
        is_text_response(r, status, body@),
{
    AdminResponse {
        status,
        content_type: "text/plain; charset=utf-8",
        body: body.to_owned(),
    }
}

/// Computes what is in use of a limit.
fn used(limit: usize, available: usize) -> (r: i64)
    ensures
        r == in_use(limit, available),
{
    let n: usize = limit.saturating_sub(available);
    if n as u64 > i64::MAX as u64 {
        i64::MAX
    } else {
        n as i64
    }
}

/// Answers a readiness probe: ready while at least one backend is healthy.
pub fn readiness_response(pool: &UpstreamPool) -> (r: AdminResponse)
    ensures
        is_readiness(r, pool@),
{
    let backends = pool.all();
    let mut i: usize = 0;
    while i < backends.len()
        invariant
            i <= backends.len() == pool@.len(),
            forall|k: int|
                #![trigger backends@[k]]
                0 <= k < pool@.len() ==> backends@[k]@ == pool@[k],
            forall|k: int| #![trigger pool@[k]] 0 <= k < i ==> !pool@[k].healthy,
        decreases backends.len() - i,
    {
        if backends[i].is_healthy() {
            assert(pool@[i as int].healthy);
            return text_response(200, "ready");
        }
        i = i + 1;
    }
    text_response(503, "no healthy upstreams")
}

/// Refreshes the gauges from the present state, and encodes the metrics.
pub fn metrics_response(metrics: &mut Metrics, pool: &UpstreamPool, occupancy: &Occupancy) -> (r:
    AdminResponse)
    requires
        old(metrics).well_formed(),
    ensures
        final(metrics).well_formed(),
        final(metrics)@ == refreshed(old(metrics)@, pool@, *occupancy),
        is_exposition(r, final(metrics)@),
{
    metrics.set_in_flight(used(occupancy.concurrency_limit, occupancy.available_requests));
    metrics.set_open_connections(
        used(occupancy.max_connections, occupancy.available_connections),
    );
    let ghost start = metrics@;
    let backends = pool.all();
    let mut i: usize = 0;
    assert(pool@.take(0) =~= Seq::empty());
    while i < backends.len()
        invariant
            i <= backends.len() == pool@.len(),
            forall|k: int|
                #![trigger backends@[k]]
                0 <= k < pool@.len() ==> backends@[k]@ == pool@[k],
            metrics.well_formed(),
            metrics@ == with_pool(start, pool@.take(i as int)),
        decreases backends.len() - i,
    {
        metrics.set_upstream_healthy(backends[i].uri().text(), backends[i].is_healthy());
        assert(pool@.take(i + 1).drop_last() =~= pool@.take(i as int));
        i = i + 1;
    }
    assert(pool@.take(pool@.len() as int) =~= pool@);
    AdminResponse {
        status: 200,
        content_type: "application/openmetrics-text; version=1.0.0; charset=utf-8",
        body: metrics.encode(),
    }
}

/// Answers a request to the administrative listener.
pub fn route(
    method: &str,
    path: &str,
    metrics: &mut Metrics,
    pool: &UpstreamPool,
    occupancy: &Occupancy,
) -> (r: AdminResponse)
    requires
        old(metrics).well_formed(),
    ensures
        final(metrics).well_formed(),
        method@ == "GET"@ && path@ == "/metrics"@ ==> is_exposition(r, final(metrics)@)
            && final(metrics)@ == refreshed(old(metrics)@, pool@, *occupancy),
        method@ != "GET"@ || path@ != "/metrics"@ ==> final(metrics)@ == old(metrics)@,
        method@ == "GET"@ && path@ == "/livez"@ ==> is_text_response(r, 200, "ok"@),
        method@ == "GET"@ && path@ == "/readyz"@ ==> is_readiness(r, pool@),
        method@ != "GET"@ || (path@ != "/metrics"@ && path@ != "/livez"@ && path@ != "/readyz"@)
            ==> is_text_response(r, 404, "not found"@),
{
    proof {
        reveal_strlit("/metrics");
        reveal_strlit("/livez");
        reveal_strlit("/readyz");
        assert("/metrics"@.len() != "/livez"@.len());
        assert("/metrics"@.len() != "/readyz"@.len());
        assert("/livez"@.len() != "/readyz"@.len());
    }
    if !same_text(method, "GET") {
        text_response(404, "not found")
    } else if same_text(path, "/metrics") {
        metrics_response(metrics, pool, occupancy)
    } else if same_text(path, "/livez") {
        text_response(200, "ok")
    } else if same_text(path, "/readyz") {
        readiness_response(pool)
    } else {
        text_response(404, "not found")
    }
}

/// A scrape shows of every backend whether it is healthy at the time of the
/// scrape, whatever was recorded of it before. Of several backends at the
/// same URI it shows the last.
pub proof fn law_scrape_shows_health(
    metrics: crate::metrics::MetricsView,
    pool: Seq<crate::upstream::UpstreamView>,
    occupancy: Occupancy,
    response: AdminResponse,
    i: int,
)
    requires
        is_exposition(response, refreshed(metrics, pool, occupancy)),
        0 <= i < pool.len(),
        forall|j: int| #![trigger pool[j]] i < j < pool.len() ==> pool[j].uri.text
            != pool[i].uri.text,
    ensures
        crate::prometheus::has_line(
            response.body@,
            crate::metrics::upstream_line(pool[i].uri.text, pool[i].healthy),
        ),
{
    let start = crate::metrics::MetricsView {
        in_flight: in_use(occupancy.concurrency_limit, occupancy.available_requests),
        open_connections: in_use(occupancy.max_connections, occupancy.available_connections),
        ..metrics
    };
    lemma_with_pool(start, pool, i);
    let shown = refreshed(metrics, pool, occupancy);
    assert(shown.upstream_healthy.contains_key(pool[i].uri.text));
    crate::metrics::law_scrape_shows_every_sample(
        shown,
        response.body@,
        crate::metrics::upstream_line(pool[i].uri.text, pool[i].healthy),
    );
}

/// A scrape changes gauges alone: what was counted and observed stays as it
/// was, the two occupancy gauges show what is in use, whatever they showed
/// before, and the upstreams that are shown are those that were shown before
/// and those of the pool.
pub proof fn law_scrape_keeps_counts(
    metrics: crate::metrics::MetricsView,
    pool: Seq<crate::upstream::UpstreamView>,
    occupancy: Occupancy,
    upstream: Seq<char>,
)
    ensures
        ({
            let after = refreshed(metrics, pool, occupancy);
            &&& after.requests == metrics.requests
            &&& after.latencies == metrics.latencies
            &&& after.buckets == metrics.buckets
            &&& after.rate_limited == metrics.rate_limited
            &&& after.in_flight == in_use(
                occupancy.concurrency_limit,
                occupancy.available_requests,
            )
            &&& after.open_connections == in_use(
                occupancy.max_connections,
                occupancy.available_connections,
            )
            &&& after.upstream_healthy.contains_key(upstream) <==> (
            metrics.upstream_healthy.contains_key(upstream) || exists|i: int|
                0 <= i < pool.len() && (#[trigger] pool[i]).uri.text == upstream)
        }),
{
    let start = crate::metrics::MetricsView {
        in_flight: in_use(occupancy.concurrency_limit, occupancy.available_requests),
        open_connections: in_use(occupancy.max_connections, occupancy.available_connections),
        ..metrics
    };
    lemma_pool_keeps_counts(start, pool, upstream);
}

proof fn lemma_pool_keeps_counts(
    metrics: crate::metrics::MetricsView,
    pool: Seq<crate::upstream::UpstreamView>,
    upstream: Seq<char>,
)
    ensures
        ({
            let after = with_pool(metrics, pool);
            &&& after == (crate::metrics::MetricsView {
                upstream_healthy: after.upstream_healthy,
                ..metrics
            })
            &&& after.upstream_healthy.contains_key(upstream) <==> (
            metrics.upstream_healthy.contains_key(upstream) || exists|i: int|
                0 <= i < pool.len() && (#[trigger] pool[i]).uri.text == upstream)
        }),
    decreases pool.len(),
{
    if pool.len() > 0 {
        let before = pool.drop_last();
        lemma_pool_keeps_counts(metrics, before, upstream);
        if exists|i: int| 0 <= i < before.len() && (#[trigger] before[i]).uri.text == upstream {
            let i = choose|i: int| 0 <= i < before.len() && (#[trigger] before[i]).uri.text
                == upstream;
            assert(pool[i].uri.text == upstream);
        }
        if exists|i: int| 0 <= i < pool.len() && (#[trigger] pool[i]).uri.text == upstream {
            let i = choose|i: int| 0 <= i < pool.len() && (#[trigger] pool[i]).uri.text
                == upstream;
            if i < before.len() {
                assert(before[i].uri.text == upstream);
            }
        }
        assert(pool[pool.len() - 1] == pool.last());
    }
}

proof fn lemma_with_pool(
    metrics: crate::metrics::MetricsView,
    pool: Seq<crate::upstream::UpstreamView>,
    i: int,
)
    requires
        0 <= i < pool.len(),
        forall|j: int| #![trigger pool[j]] i < j < pool.len() ==> pool[j].uri.text
            != pool[i].uri.text,
    ensures
        with_pool(metrics, pool).upstream_healthy.contains_key(pool[i].uri.text),
        with_pool(metrics, pool).upstream_healthy[pool[i].uri.text] == pool[i].healthy,
    decreases pool.len(),
{
    if i < pool.len() - 1 {
        assert(pool.last().uri.text != pool[i].uri.text);
        lemma_with_pool(metrics, pool.drop_last(), i);
    }
}

/// What is in use of a limit and what is available of it make up the limit.
/// Where more is available than the limit allows, nothing is in use.
pub proof fn law_in_use_and_available_make_up_the_limit(limit: usize, available: usize)
    ensures
        available <= limit && limit - available <= i64::MAX ==> in_use(limit, available) + available
            == limit,
        available > limit ==> in_use(limit, available) == 0,
        available <= limit && limit - available > i64::MAX ==> in_use(limit, available) == i64::MAX,
{
}

/// A probe is told that the proxy is ready exactly when a backend is healthy.
/// One that is only due for a trial does not count.
pub proof fn law_ready_while_a_backend_is_healthy(
    response: AdminResponse,
    pool: Seq<crate::upstream::UpstreamView>,
)
    requires
        is_readiness(response, pool),
    ensures
        response.status == 200 || response.status == 503,
        response.status == 200 <==> exists|i: int|
            0 <= i < pool.len() && (#[trigger] pool[i]).healthy,
        response.status == 200 ==> response.body@ == "ready"@,
        response.status == 503 ==> response.body@ == "no healthy upstreams"@,
        response.content_type@ == "text/plain; charset=utf-8"@,
{
}

/// A text is answered as such, and a scrape in the OpenMetrics format.
pub proof fn law_kinds_of_answers(
    response: AdminResponse,
    status: u16,
    body: Seq<char>,
    metrics: crate::metrics::MetricsView,
)
    ensures
        is_text_response(response, status, body) ==> response.status == status
            && response.body@ == body && response.content_type@ == "text/plain; charset=utf-8"@,
        is_exposition(response, metrics) ==> response.status == 200 && response.content_type@
            == "application/openmetrics-text; version=1.0.0; charset=utf-8"@ && metrics.shown_in(
            response.body@,
        ),
{
}

/// A scrape sets the health of each upstream of the pool to that of its last
/// backend, and leaves that of the others as it was.
pub proof fn law_scrape_sets_health(
    metrics: crate::metrics::MetricsView,
    pool: Seq<crate::upstream::UpstreamView>,
    occupancy: Occupancy,
    upstream: Seq<char>,
)
    ensures
        ({
            let before = metrics.upstream_healthy;
            let after = refreshed(metrics, pool, occupancy).upstream_healthy;
            &&& forall|i: int|
                #![trigger pool[i]]
                0 <= i < pool.len() && pool[i].uri.text == upstream && (forall|j: int|
                    #![trigger pool[j]]
                    i < j < pool.len() ==> pool[j].uri.text != upstream) ==> after.contains_key(
                    upstream,
                ) && after[upstream] == pool[i].healthy
            &&& (forall|i: int|
                #![trigger pool[i]]
                0 <= i < pool.len() ==> pool[i].uri.text != upstream) ==> (after.contains_key(
                upstream,
            ) <==> before.contains_key(upstream)) && (before.contains_key(upstream)
                ==> after[upstream] == before[upstream])
        }),
{
    let start = crate::metrics::MetricsView {
        in_flight: in_use(occupancy.concurrency_limit, occupancy.available_requests),
        open_connections: in_use(occupancy.max_connections, occupancy.available_connections),
        ..metrics
    };
    assert forall|i: int|
        0 <= i < pool.len() && (#[trigger] pool[i]).uri.text == upstream && (forall|j: int|
            #![trigger pool[j]]
            i < j < pool.len() ==> pool[j].uri.text != upstream) implies refreshed(
        metrics,
        pool,
        occupancy,
    ).upstream_healthy.contains_key(upstream) && refreshed(
        metrics,
        pool,
        occupancy,
    ).upstream_healthy[upstream] == pool[i].healthy by {
        lemma_with_pool(start, pool, i);
    }
    if forall|i: int| #![trigger pool[i]] 0 <= i < pool.len() ==> pool[i].uri.text != upstream {
        lemma_without_pool(start, pool, upstream);
    }
}

proof fn lemma_without_pool(
    metrics: crate::metrics::MetricsView,
    pool: Seq<crate::upstream::UpstreamView>,
    upstream: Seq<char>,
)
    requires
        forall|i: int| #![trigger pool[i]] 0 <= i < pool.len() ==> pool[i].uri.text != upstream,
    ensures
        with_pool(metrics, pool).upstream_healthy.contains_key(upstream)
            <==> metrics.upstream_healthy.contains_key(upstream),
        metrics.upstream_healthy.contains_key(upstream) ==> with_pool(
            metrics,
            pool,
        ).upstream_healthy[upstream] == metrics.upstream_healthy[upstream],
    decreases pool.len(),
{
    if pool.len() > 0 {
        let before = pool.drop_last();
        assert forall|i: int| 0 <= i < before.len() implies (#[trigger] before[i]).uri.text
            != upstream by {
            assert(pool[i].uri.text != upstream);
        }
        lemma_without_pool(metrics, before, upstream);
        assert(pool[pool.len() - 1].uri.text != upstream);
    }
}

/// A scrape leaves all counts and latencies as they were, and shows in its
/// gauges what is in use of the two limits.
pub proof fn law_scrape_sets_gauges_alone(
    metrics: crate::metrics::MetricsView,
    pool: Seq<crate::upstream::UpstreamView>,
    occupancy: Occupancy,
)
    ensures
        ({
            let after = refreshed(metrics, pool, occupancy);
            &&& after == (crate::metrics::MetricsView {
                in_flight: after.in_flight,
                open_connections: after.open_connections,
                upstream_healthy: after.upstream_healthy,
                ..metrics
            })
            &&& occupancy.available_requests <= occupancy.concurrency_limit <= i64::MAX
                ==> after.in_flight + occupancy.available_requests == occupancy.concurrency_limit
            &&& occupancy.available_requests > occupancy.concurrency_limit ==> after.in_flight == 0
            &&& occupancy.available_connections <= occupancy.max_connections <= i64::MAX
                ==> after.open_connections + occupancy.available_connections
                == occupancy.max_connections
            &&& occupancy.available_connections > occupancy.max_connections
                ==> after.open_connections == 0
        }),
{
    law_scrape_keeps_counts(metrics, pool, occupancy, Seq::empty());
}

} // verus!
