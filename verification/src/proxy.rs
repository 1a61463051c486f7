//! The decisions of the request path.
//!
//! A request is first screened, then given to a backend and rewritten for it.
//! What the upstream did is settled with the backend's health record, and the
//! response is cleaned, masked where that is called for, and sent back under
//! the identifier of the request.
use crate::balancer::LoadBalancer;
use crate::config::RuntimeConfig;
use crate::error::ProxyError;
use crate::header_map::{
    all_values, has_header, name_str, number_value, parse_value, static_name,
    value_text,
};
use crate::headers::{
    content_length, content_length_exceeds, declared_body_length, header_text,
    inject_forwarding_headers, is_smuggling_attempt, put_header, remove_names, rewrite_host,
    strip_hop_by_hop, strip_response_headers,
};
use crate::sequence::RequestIds;
use crate::text::{all_graphic, contains, same_word, to_decimal, trim};
use crate::uri::Uri;
use hyper::header::{HeaderMap, HeaderName, HeaderValue};
use vstd::prelude::*;

verus! {

/// The greatest length of an identifier that a client may give its request.
/// It bounds what is echoed and logged.
pub const MAX_REQUEST_ID_LEN: usize = 128;

/// An identifier that is echoed: short, not empty, and without blanks or
/// control characters.
pub open spec fn acceptable_id(id: Seq<char>) -> bool {
    &&& 0 < id.len() <= MAX_REQUEST_ID_LEN
    &&& forall|i: int| #![trigger id[i]] 0 <= i < id.len() ==> crate::text::graphic(id[i])
}

/// The identifier that a client gave its request, if it is acceptable.
pub open spec fn inbound_id(fields: Map<Seq<char>, Seq<Seq<u8>>>) -> Option<Seq<char>> {
    match crate::headers::first_text(fields, "x-request-id"@) {
        Some(text) => {
            if acceptable_id(crate::text::trimmed(text)) {
                Some(crate::text::trimmed(text))
            } else {
                None
            }
        },
        None => None,
    }
}

/// The identifier of the request with the sequence number `seq`.
pub open spec fn assigned_id(fields: Map<Seq<char>, Seq<Seq<u8>>>, seq: u64) -> Seq<char> {
    match inbound_id(fields) {
        Some(id) => id,
        None => crate::text::decimal(seq as nat),
    }
}

fn request_id_name() -> (name: HeaderName)
    ensures
        crate::header_map::name_text(name) == "x-request-id"@,
{
    proof {
        reveal_strlit("x-request-id");
        crate::headers::lemma_small_name("x-request-id"@);
    }
    static_name("x-request-id")
}

/// Returns the identifier that a client gave its request in `X-Request-Id`,
/// without the blanks around it. One that is empty, too long or not made of
/// visible ASCII characters is not taken.
pub fn inbound_request_id(headers: &HeaderMap<HeaderValue>) -> (r: Option<String>)
    ensures
        match inbound_id(crate::header_map::header_fields(*headers)) {
            Some(id) => r is Some && r->Some_0@ == id,
            None => r is None,
        },
{
    match header_text(headers, &request_id_name()) {
        Some(text) => {
            let id = trim(text);
            let length: usize = id.unicode_len();
            if length > 0 && length <= MAX_REQUEST_ID_LEN && all_graphic(id) {
                Some(id.to_owned())
            } else {
                None
            }
        },
        None => None,
    }
}

/// Returns the identifier of a request: the one that the client gave it, or
/// its sequence number.
pub fn request_id(headers: &HeaderMap<HeaderValue>, seq: u64) -> (r: String)
    ensures
        r@ == assigned_id(crate::header_map::header_fields(*headers), seq),
{
    match inbound_request_id(headers) {
        Some(id) => id,
        None => to_decimal(seq),
    }
}

/// Numbers a request and identifies it: by the identifier that the client gave
/// it, or else by that number. A number is used up either way.
pub fn identify(ids: &mut RequestIds, headers: &HeaderMap<HeaderValue>) -> (r: (u64, String))
    ensures
        r.0 == old(ids)@,
        r.1@ == assigned_id(crate::header_map::header_fields(*headers), old(ids)@),
        final(ids)@ == crate::sequence::following(old(ids)@),
{
    let seq: u64 = ids.assign();
    (seq, request_id(headers, seq))
}

/// The first of the blocked headers, in the order of the configuration, that
/// a request carries.
pub open spec fn first_blocked_header(
    fields: Map<Seq<char>, Seq<Seq<u8>>>,
    blocked: Seq<HeaderName>,
) -> Option<Seq<char>>
    decreases blocked.len(),
{
    if blocked.len() == 0 {
        None
    } else if fields.contains_key(crate::header_map::name_text(blocked[0])) {
        Some(crate::header_map::name_text(blocked[0]))
    } else {
        first_blocked_header(fields, blocked.drop_first())
    }
}

/// The first key of a query that is a blocked one, letter for letter.
pub open spec fn first_blocked_key(
    pairs: Seq<(Seq<char>, Seq<char>)>,
    blocked: Seq<Seq<char>>,
) -> Option<Seq<char>>
    decreases pairs.len(),
{
    if pairs.len() == 0 {
        None
    } else if blocked.contains(pairs[0].0) {
        Some(pairs[0].0)
    } else {
        first_blocked_key(pairs.drop_first(), blocked)
    }
}

/// The texts of a list of strings.
pub open spec fn texts(list: Seq<String>) -> Seq<Seq<char>> {
    Seq::new(list.len(), |i: int| list[i]@)
}

/// The texts of a list of pairs of strings.
pub open spec fn text_pairs(list: Seq<(String, String)>) -> Seq<(Seq<char>, Seq<char>)> {
    Seq::new(list.len(), |i: int| (list[i].0@, list[i].1@))
}

/// The rule of the policy that a request breaks, if it breaks one. Headers
/// come before query parameters.
pub open spec fn violation(
    fields: Map<Seq<char>, Seq<Seq<u8>>>,
    pairs: Seq<(Seq<char>, Seq<char>)>,
    config: RuntimeConfig,
) -> Option<crate::error::ErrorView> {
    match first_blocked_header(fields, config.blocked_headers@) {
        Some(name) => Some(crate::error::ErrorView::BlockedHeader(name)),
        None => match first_blocked_key(pairs, texts(config.blocked_params@)) {
            Some(key) => Some(crate::error::ErrorView::BlockedParam(key)),
            None => None,
        },
    }
}

/// The decoded keys and values of a query in the syntax of HTML forms, as
/// `form_urlencoded::parse` reads them.
pub uninterp spec fn form_pairs(query: Seq<u8>) -> Seq<(Seq<char>, Seq<char>)>;

/// The pairs of a URI's query. A URI without a query has none.
pub open spec fn query_pairs(uri: crate::uri::UriView) -> Seq<(Seq<char>, Seq<char>)> {
    match uri.query {
        Some(query) => form_pairs(vstd::utf8::encode_utf8(query)),
        None => Seq::empty(),
    }
}

/// `form_urlencoded::parse`, with each pair turned into owned strings. The
/// pairs come in the order of the query, and both texts of a pair are
/// percent-decoded.
#[verifier::external_body]
fn parse_form(query: &str) -> (pairs: Vec<(String, String)>)
    ensures
        text_pairs(pairs@) == form_pairs(vstd::utf8::encode_utf8(query@)),
{
    form_urlencoded::parse(query.as_bytes()).into_owned().collect()
}

/// Whether `key` is one of the blocked parameters.
fn is_blocked(key: &String, blocked: &[String]) -> (r: bool)
    ensures
        r == texts(blocked@).contains(key@),
{
    let mut i: usize = 0;
    while i < blocked.len()
        invariant
            i <= blocked.len(),
            forall|k: int| #![trigger blocked@[k]] 0 <= k < i ==> blocked@[k]@ != key@,
        decreases blocked.len() - i,
    {
        if blocked[i] == *key {
            assert(texts(blocked@)[i as int] == key@);
            return true;
        }
        i = i + 1;
    }
    assert(!texts(blocked@).contains(key@)) by {
        if texts(blocked@).contains(key@) {
            let k = choose|k: int| 0 <= k < blocked@.len() && texts(blocked@)[k] == key@;
            assert(blocked@[k]@ != key@);
        }
    }
    false
}

fn find_blocked_header(headers: &HeaderMap<HeaderValue>, blocked: &[HeaderName]) -> (r: Option<
    String,
>)
    ensures
        match first_blocked_header(crate::header_map::header_fields(*headers), blocked@) {
            Some(name) => r is Some && r->Some_0@ == name,
            None => r is None,
        },
{
    let ghost fields = crate::header_map::header_fields(*headers);
    let mut i: usize = 0;
    assert(blocked@.skip(0) =~= blocked@);
    while i < blocked.len()
        invariant
            i <= blocked.len(),
            fields == crate::header_map::header_fields(*headers),
            first_blocked_header(fields, blocked@) == first_blocked_header(
                fields,
                blocked@.skip(i as int),
            ),
        decreases blocked.len() - i,
    {
        assert(blocked@.skip(i as int).drop_first() =~= blocked@.skip(i + 1));
        if has_header(headers, &blocked[i]) {
            return Some(name_str(&blocked[i]).to_owned());
        }
        i = i + 1;
    }
    None
}

fn find_blocked_key(pairs: &[(String, String)], blocked: &[String]) -> (r: Option<String>)
    ensures
        match first_blocked_key(text_pairs(pairs@), texts(blocked@)) {
            Some(key) => r is Some && r->Some_0@ == key,
            None => r is None,
        },
{
    let ghost read = text_pairs(pairs@);
    let mut i: usize = 0;
    assert(read.skip(0) =~= read);
    while i < pairs.len()
        invariant
            i <= pairs.len(),
            read == text_pairs(pairs@),
            first_blocked_key(read, texts(blocked@)) == first_blocked_key(
                read.skip(i as int),
                texts(blocked@),
            ),
        decreases pairs.len() - i,
    {
        assert(read.skip(i as int).drop_first() =~= read.skip(i + 1));
        if is_blocked(&pairs[i].0, blocked) {
            return Some(pairs[i].0.clone());
        }
        i = i + 1;
    }
    None
}

/// Checks a request, whose query has been parsed into `pairs`, against the
/// configured block rules.
pub fn inspect_pairs(
    headers: &HeaderMap<HeaderValue>,
    pairs: &[(String, String)],
    config: &RuntimeConfig,
) -> (r: Result<(), ProxyError>)
    ensures
        match violation(
            crate::header_map::header_fields(*headers),
            text_pairs(pairs@),
            *config,
        ) {
            Some(rule) => r is Err && r->Err_0@ == rule,
            None => r is Ok,
        },
{
    match find_blocked_header(headers, config.blocked_headers.as_slice()) {
        Some(name) => Err(ProxyError::BlockedHeader(name)),
        None => match find_blocked_key(pairs, config.blocked_params.as_slice()) {
            Some(key) => Err(ProxyError::BlockedParam(key)),
            None => Ok(()),
        },
    }
}

/// Checks a request against the configured block rules, whatever its method.
///
/// Blocked headers are matched by name. Blocked query parameters are matched
/// against the decoded keys of the query, and as a whole, so neither a longer
/// name that contains a blocked one is caught, nor does a percent-encoded one
/// slip through.
pub fn inspect_request(headers: &HeaderMap<HeaderValue>, uri: &Uri, config: &RuntimeConfig) -> (r:
    Result<(), ProxyError>)
    ensures
        match violation(
            crate::header_map::header_fields(*headers),
            query_pairs(uri@),
            *config,
        ) {
            Some(rule) => r is Err && r->Err_0@ == rule,
            None => r is Ok,
        },
{
    let pairs = match uri.query() {
        Some(query) => parse_form(query),
        None => Vec::new(),
    };
    assert(text_pairs(pairs@) =~= query_pairs(uri@));
    inspect_pairs(headers, pairs.as_slice(), config)
}

/// Why a request is turned away before a backend is chosen for it, if it is.
/// `retry_after_ms` is what the rate limiter says: how long a client over its
/// rate has to wait.
pub open spec fn turned_away(
    fields: Map<Seq<char>, Seq<Seq<u8>>>,
    pairs: Seq<(Seq<char>, Seq<char>)>,
    retry_after_ms: Option<u64>,
    config: RuntimeConfig,
) -> Option<crate::error::ErrorView> {
    if let Some(retry_after_ms) = retry_after_ms {
        Some(crate::error::ErrorView::RateLimited { retry_after_ms })
    } else if crate::headers::ambiguous_framing(fields) {
        Some(crate::error::ErrorView::RequestSmuggling)
    } else if crate::headers::declared_length(fields) matches Some(length) && length
        > config.max_body_size {
        Some(crate::error::ErrorView::BodyTooLarge { limit: config.max_body_size })
    } else {
        violation(fields, pairs, config)
    }
}

/// Screens a request: against the rate of its client, ambiguous framing, an
/// oversized body and the policy, in this order.
pub fn screen_request(
    headers: &HeaderMap<HeaderValue>,
    uri: &Uri,
    retry_after_ms: Option<u64>,
    config: &RuntimeConfig,
) -> (r: Result<(), ProxyError>)
    ensures
        match turned_away(
            crate::header_map::header_fields(*headers),
            query_pairs(uri@),
            retry_after_ms,
            *config,
        ) {
            Some(reason) => r is Err && r->Err_0@ == reason,
            None => r is Ok,
        },
{
    if let Some(retry_after_ms) = retry_after_ms {
        return Err(ProxyError::RateLimited { retry_after_ms });
    }
    if is_smuggling_attempt(headers) {
        return Err(ProxyError::RequestSmuggling);
    }
    if content_length_exceeds(headers, config.max_body_size) {
        return Err(ProxyError::BodyTooLarge { limit: config.max_body_size });
    }
    inspect_request(headers, uri, config)
}

/// Where a request goes once a backend has been chosen for it.
pub open spec fn target(original: crate::uri::UriView, upstream: crate::uri::UriView) -> Result<
    crate::uri::UriView,
    crate::error::ErrorView,
> {
    match upstream.authority {
        None => Err(crate::error::ErrorView::InvalidUpstream("upstream has no authority"@)),
        Some(authority) => match upstream.scheme {
            None => Err(crate::error::ErrorView::InvalidUpstream("upstream has no scheme"@)),
            Some(scheme) => Ok(
                crate::uri::assembled(
                    Some(scheme),
                    Some(authority),
                    Some(original.path_or_root()),
                ),
            ),
        },
    }
}

/// Rewrites the URI of a request to reach `upstream`, with the path and the
/// query that it had.
pub fn rewrite_uri(original: &Uri, upstream: &Uri) -> (r: Result<Uri, ProxyError>)
    ensures
        match target(original@, upstream@) {
            Ok(uri) => r is Ok && r->Ok_0@ == uri && uri.query == original@.query,
            Err(reason) => r is Err && r->Err_0@ == reason,
        },
{
    let authority = match upstream.authority() {
        Some(authority) => authority,
        None => {
            return Err(ProxyError::InvalidUpstream("upstream has no authority".to_owned()));
        },
    };
    let scheme = match upstream.scheme() {
        Some(scheme) => scheme,
        None => {
            return Err(ProxyError::InvalidUpstream("upstream has no scheme".to_owned()));
        },
    };
    match original.retarget(scheme, authority) {
        Ok(uri) => Ok(uri),
        Err(reason) => {
            let mut message = "failed to build upstream URI: ".to_owned();
            message.append(reason.as_str());
            Err(ProxyError::Internal(message))
        },
    }
}

/// The query that a backend is asked with is the one that was screened, and
/// so are the pairs that it decodes to.
pub proof fn law_screened_query_is_forwarded(
    original: crate::uri::UriView,
    upstream: crate::uri::UriView,
)
    requires
        crate::uri::reusable(original),
    ensures
        target(original, upstream) matches Ok(uri) ==> uri.query == original.query && query_pairs(
            uri,
        ) == query_pairs(original),
{
    reveal_with_fuel(crate::uri::query_part, 2);
}

/// The headers with which a request goes to the backend at `authority`.
pub open spec fn outbound(
    fields: Map<Seq<char>, Seq<Seq<u8>>>,
    client: Seq<char>,
    tls: bool,
    authority: Seq<char>,
    config: RuntimeConfig,
) -> Map<Seq<char>, Seq<Seq<u8>>> {
    crate::headers::hosted(
        crate::headers::forwarded(
            crate::headers::end_to_end(fields),
            client,
            tls,
            config.trust_forwarded_headers,
        ),
        authority,
    ).remove_keys(crate::headers::names_in(config.blocked_headers@))
}

/// The headers have room for the four that the proxy adds to a request.
pub open spec fn roomy(headers: HeaderMap<HeaderValue>) -> bool {
    crate::header_map::distinct_names(headers) + 4 <= crate::header_map::ROOMY
}

/// Prepares the headers of a request for the backend at `authority`. Where
/// the map is too full for what the proxy adds, they are left half prepared.
pub fn prepare_headers(
    headers: &mut HeaderMap<HeaderValue>,
    client: &str,
    tls: bool,
    authority: &str,
    config: &RuntimeConfig,
) -> (r: Result<(), ProxyError>)
    requires
        crate::text::is_text(client@),
        crate::text::is_text(authority@),
    ensures
        roomy(*old(headers)) ==> r is Ok,
        r is Ok ==> crate::header_map::header_fields(*final(headers)) == outbound(
            crate::header_map::header_fields(*old(headers)),
            client@,
            tls,
            authority@,
            *config,
        ),
        r matches Err(e) ==> e@ == crate::headers::no_room(),
{
    strip_hop_by_hop(headers);
    if let Err(e) = inject_forwarding_headers(
        headers,
        client,
        tls,
        config.trust_forwarded_headers,
    ) {
        return Err(e);
    }
    if let Err(e) = rewrite_host(headers, authority) {
        return Err(e);
    }
    remove_names(headers, config.blocked_headers.as_slice());
    Ok(())
}

/// A version of HTTP.
#[derive(Debug, Clone, Copy, PartialEq, Eq, Structural)]
pub enum HttpVersion {
    Http10,
    Http11,
    Http2,
}

/// A request that is ready to go to a backend.
#[derive(Debug)]
pub struct Forward {
    /// The backend's place in the pool.
    pub upstream: usize,
    /// The URI to ask for.
    pub uri: Uri,
    /// The version of HTTP in which to ask. It is not the client's: the two
    /// connections are independent, and the protocol of the one to the
    /// backend is settled when it is made.
    pub version: HttpVersion,
}

/// A request that passed the screening was given to a backend of `before`:
/// this is what became of it, of its headers and of the balancer. `room` says
/// that its header map has room for what the proxy adds; without it, the
/// request may be given up with its headers half prepared.
pub open spec fn dispatched(
    before: crate::balancer::BalancerView,
    clock: Seq<u64>,
    original: crate::uri::UriView,
    fields: Map<Seq<char>, Seq<Seq<u8>>>,
    room: bool,
    client: Seq<char>,
    tls: bool,
    config: RuntimeConfig,
    result: Result<Forward, ProxyError>,
    after: crate::balancer::BalancerView,
    fields_after: Map<Seq<char>, Seq<Seq<u8>>>,
) -> bool {
    match result {
        Ok(forward) => {
            let upstream = before.pool[forward.upstream as int].uri;
            &&& before.picks(clock, forward.upstream as int)
            &&& after == before.after_pick(clock, forward.upstream as int)
            &&& target(original, upstream) == Ok::<_, crate::error::ErrorView>(forward.uri@)
            &&& forward.uri@.query == original.query
            &&& forward.version == HttpVersion::Http11
            &&& fields_after == outbound(
                fields,
                client,
                tls,
                upstream.authority->Some_0,
                config,
            )
        },
        Err(e) => if before.any_eligible(clock) {
            exists|i: int| #[trigger]
                before.picks(clock, i) && after == before.after_pick(clock, i) && match target(
                    original,
                    before.pool[i].uri,
                ) {
                    Ok(_) => !room && e@ == crate::headers::no_room(),
                    Err(reason) => e@ == reason && fields_after == fields,
                }
        } else {
            e@ == crate::error::ErrorView::NoHealthyUpstream && after == before && fields_after
                == fields
        },
    }
}

/// Takes a request through everything that precedes its way upstream:
/// screening, the choice of a backend, and the rewriting of URI and headers
/// for it. The query that goes upstream is the one that was screened, and the
/// request goes out as HTTP/1.1, whatever the client speaks. A request that is
/// turned away is left as it was.
pub fn begin_request_at(
    balancer: &mut LoadBalancer,
    clock: &[u64],
    headers: &mut HeaderMap<HeaderValue>,
    uri: &Uri,
    client: &str,
    tls: bool,
    retry_after_ms: Option<u64>,
    config: &RuntimeConfig,
) -> (r: Result<Forward, ProxyError>)
    requires
        old(balancer).well_formed(),
        clock@.len() == old(balancer)@.pool.len(),
        crate::text::is_text(client@),
    ensures
        final(balancer).well_formed(),
        match turned_away(
            crate::header_map::header_fields(*old(headers)),
            query_pairs(uri@),
            retry_after_ms,
            *config,
        ) {
            Some(reason) => r is Err && r->Err_0@ == reason && final(balancer)@ == old(balancer)@
                && *final(headers) == *old(headers),
            None => dispatched(
                old(balancer)@,
                clock@,
                uri@,
                crate::header_map::header_fields(*old(headers)),
                roomy(*old(headers)),
                client@,
                tls,
                *config,
                r,
                final(balancer)@,
                crate::header_map::header_fields(*final(headers)),
            ),
        },
{
    if let Err(reason) = screen_request(headers, uri, retry_after_ms, config) {
        return Err(reason);
    }
    let ghost before = balancer@;
    let upstream: usize = match balancer.next_at(clock) {
        Ok(i) => i,
        Err(e) => {
            return Err(e);
        },
    };
    proof {
        assert(crate::balancer::eligible_of(before.pool, clock@)[upstream as int]);
        assert(before.pool[upstream as int].eligible_at(clock@[upstream as int]));
    }
    let backend = balancer.pool().all()[upstream].uri();
    match rewrite_uri(uri, backend) {
        Ok(rewritten) => {
            let authority = match backend.authority() {
                Some(authority) => authority,
                None => {
                    return Err(
                        ProxyError::InvalidUpstream("upstream has no authority".to_owned()),
                    );
                },
            };
            match prepare_headers(headers, client, tls, authority, config) {
                Ok(()) => Ok(
                    Forward { upstream, uri: rewritten, version: HttpVersion::Http11 },
                ),
                Err(e) => Err(e),
            }
        },
        Err(e) => Err(e),
    }
}

/// As [`begin_request_at`], with the clocks of the backends read now.
pub fn begin_request(
    balancer: &mut LoadBalancer,
    headers: &mut HeaderMap<HeaderValue>,
    uri: &Uri,
    client: &str,
    tls: bool,
    retry_after_ms: Option<u64>,
    config: &RuntimeConfig,
) -> (r: Result<Forward, ProxyError>)
    requires
        old(balancer).well_formed(),
        crate::text::is_text(client@),
    ensures
        final(balancer).well_formed(),
        match turned_away(
            crate::header_map::header_fields(*old(headers)),
            query_pairs(uri@),
            retry_after_ms,
            *config,
        ) {
            Some(reason) => r is Err && r->Err_0@ == reason && final(balancer)@ == old(balancer)@
                && *final(headers) == *old(headers),
            None => exists|readings: Seq<std::time::Instant>|
                dispatched(
                    old(balancer)@,
                    #[trigger] old(balancer)@.times_at(readings),
                    uri@,
                    crate::header_map::header_fields(*old(headers)),
                    roomy(*old(headers)),
                    client@,
                    tls,
                    *config,
                    r,
                    final(balancer)@,
                    crate::header_map::header_fields(*final(headers)),
                ),
        },
{
    let clock = balancer.read_clocks();
    begin_request_at(
        balancer,
        clock.as_slice(),
        headers,
        uri,
        client,
        tls,
        retry_after_ms,
        config,
    )
}

/// What came of sending a request upstream.
#[derive(Debug)]
pub enum Outcome {
    /// The upstream responded.
    Responded,
    /// The request body turned out to be larger than the limit.
    BodyOverLimit,
    /// The connection failed, for this reason.
    Failed(String),
    /// The upstream did not respond in time.
    TimedOut,
}

/// The health record of a backend after an outcome. A body over the limit is
/// the client's doing and does not count against the backend.
pub open spec fn settled(
    backend: crate::upstream::UpstreamView,
    outcome: Outcome,
    config: RuntimeConfig,
    now: u64,
) -> crate::upstream::UpstreamView {
    match outcome {
        Outcome::Responded => backend.after_success(config.healthy_threshold),
        Outcome::BodyOverLimit => backend,
        Outcome::Failed(_) => backend.after_failure(config.failure_threshold, now),
        Outcome::TimedOut => backend.after_failure(config.failure_threshold, now),
    }
}

/// The error with which an outcome ends the request, if it does.
pub open spec fn outcome_error(outcome: Outcome, config: RuntimeConfig) -> Option<
    crate::error::ErrorView,
> {
    match outcome {
        Outcome::Responded => None,
        Outcome::BodyOverLimit => Some(
            crate::error::ErrorView::BodyTooLarge { limit: config.max_body_size },
        ),
        Outcome::Failed(reason) => Some(crate::error::ErrorView::Upstream(reason@)),
        Outcome::TimedOut => Some(crate::error::ErrorView::Timeout(config.request_timeout)),
    }
}

/// Settles the outcome of a request with the health record of its backend,
/// at the time `now` of that backend.
pub fn settle_at(
    balancer: &mut LoadBalancer,
    upstream: usize,
    outcome: Outcome,
    config: &RuntimeConfig,
    now: u64,
) -> (r: Result<(), ProxyError>)
    requires
        old(balancer).well_formed(),
        upstream < old(balancer)@.pool.len(),
    ensures
        final(balancer).well_formed(),
        final(balancer)@.current == old(balancer)@.current,
        final(balancer)@.pool == old(balancer)@.pool.update(
            upstream as int,
            settled(old(balancer)@.pool[upstream as int], outcome, *config, now),
        ),
        match outcome_error(outcome, *config) {
            Some(reason) => r is Err && r->Err_0@ == reason,
            None => r is Ok,
        },
{
    match outcome {
        Outcome::Responded => {
            balancer.backend_mut(upstream).record_success(config.healthy_threshold);
            Ok(())
        },
        Outcome::BodyOverLimit => {
            assert(balancer@.pool.update(upstream as int, balancer@.pool[upstream as int])
                =~= balancer@.pool);
            Err(ProxyError::BodyTooLarge { limit: config.max_body_size })
        },
        Outcome::Failed(reason) => {
            balancer.backend_mut(upstream).record_failure_at(config.failure_threshold, now);
            Err(ProxyError::Upstream(reason))
        },
        Outcome::TimedOut => {
            balancer.backend_mut(upstream).record_failure_at(config.failure_threshold, now);
            Err(ProxyError::Timeout(config.request_timeout))
        },
    }
}

/// As [`settle_at`], with the clock of the backend read now.
pub fn settle(
    balancer: &mut LoadBalancer,
    upstream: usize,
    outcome: Outcome,
    config: &RuntimeConfig,
) -> (r: Result<(), ProxyError>)
    requires
        old(balancer).well_formed(),
        upstream < old(balancer)@.pool.len(),
    ensures
        final(balancer).well_formed(),
        final(balancer)@.current == old(balancer)@.current,
        exists|now: std::time::Instant|
            final(balancer)@.pool == old(balancer)@.pool.update(
                upstream as int,
                settled(
                    old(balancer)@.pool[upstream as int],
                    outcome,
                    *config,
                    #[trigger] old(balancer)@.pool[upstream as int].time_at(now),
                ),
            ),
        match outcome_error(outcome, *config) {
            Some(reason) => r is Err && r->Err_0@ == reason,
            None => r is Ok,
        },
{
    let now: u64 = balancer.pool().all()[upstream].now_ms();
    settle_at(balancer, upstream, outcome, config, now)
}

/// `n` bytes as a buffer can hold them.
pub open spec fn buffer_limit(n: u64) -> usize {
    if n > usize::MAX {
        usize::MAX
    } else {
        n as usize
    }
}

/// Converts a limit in bytes to the size of a buffer, at the most the
/// greatest there can be.
pub fn body_limit(n: u64) -> (r: usize)
    ensures
        r == buffer_limit(n),
{
    if n > usize::MAX as u64 {
        usize::MAX
    } else {
        n as usize
    }
}

/// The headers of a response once it has been cleaned.
pub open spec fn cleaned(
    fields: Map<Seq<char>, Seq<Seq<u8>>>,
    config: RuntimeConfig,
) -> Map<Seq<char>, Seq<Seq<u8>>> {
    crate::headers::end_to_end(fields).remove_keys(
        crate::headers::names_in(config.strip_response_headers@),
    )
}

/// Takes out of a response what must not reach the client: the headers of
/// the upstream connection, and those that the configuration withholds.
pub fn clean_response(headers: &mut HeaderMap<HeaderValue>, config: &RuntimeConfig)
    ensures
        crate::header_map::header_fields(*final(headers)) == cleaned(
            crate::header_map::header_fields(*old(headers)),
            *config,
        ),
        crate::header_map::distinct_names(*final(headers)) <= crate::header_map::distinct_names(
            *old(headers),
        ),
{
    strip_hop_by_hop(headers);
    strip_response_headers(headers, config.strip_response_headers.as_slice());
}

/// How the body of a response goes to the client.
#[derive(Debug, PartialEq, Eq, Structural)]
pub enum BodyPlan {
    /// As it comes.
    Stream,
    /// Buffered up to this many bytes, and masked.
    Mask { ceiling: usize },
}

/// The body is text or a form.
pub open spec fn textual(fields: Map<Seq<char>, Seq<Seq<u8>>>) -> bool {
    match crate::headers::first_text(fields, "content-type"@) {
        Some(kind) => crate::text::has_part(kind, "text/"@) || crate::text::has_part(
            kind,
            "application/x-www-form-urlencoded"@,
        ),
        None => false,
    }
}

/// A `Content-Encoding` value that does not leave the body as it is. One that
/// is not text may name any coding.
pub open spec fn names_coding(value: Seq<u8>) -> bool {
    match crate::header_map::value_as_text(value) {
        Some(text) => crate::text::trimmed(text).len() > 0 && crate::text::lower(
            crate::text::trimmed(text),
        ) != "identity"@,
        None => true,
    }
}

/// The body is compressed or otherwise encoded: one of its `Content-Encoding`
/// values, whichever line it stands on, says so.
pub open spec fn encoded(fields: Map<Seq<char>, Seq<Seq<u8>>>) -> bool {
    fields.contains_key("content-encoding"@) && exists|i: int|
        0 <= i < fields["content-encoding"@].len() && names_coding(
            #[trigger] fields["content-encoding"@][i],
        )
}

/// How the body of a response with these headers goes to the client.
pub open spec fn body_plan(
    fields: Map<Seq<char>, Seq<Seq<u8>>>,
    config: RuntimeConfig,
) -> BodyPlan {
    if config.masking && textual(fields) && !encoded(fields) && (crate::headers::declared_length(
        fields,
    ) matches Some(length) && length <= config.mask_max_body_size) {
        BodyPlan::Mask { ceiling: buffer_limit(config.mask_max_body_size) }
    } else {
        BodyPlan::Stream
    }
}

/// Whether a response says, on any of its `Content-Encoding` lines, that its
/// body is encoded.
fn is_encoded(headers: &HeaderMap<HeaderValue>) -> (r: bool)
    ensures
        r == encoded(crate::header_map::header_fields(*headers)),
{
    proof {
        reveal_strlit("content-encoding");
        crate::headers::lemma_small_name("content-encoding"@);
        reveal_strlit("identity");
        assert(crate::text::lower("identity"@) =~= "identity"@);
    }
    let ghost fields = crate::header_map::header_fields(*headers);
    let values = all_values(headers, &static_name("content-encoding"));
    let ghost bytes = Seq::new(
        values@.len(),
        |i: int| crate::header_map::value_bytes(*values@[i]),
    );
    assert(fields.contains_key("content-encoding"@) ==> bytes == fields["content-encoding"@]);
    assert(!fields.contains_key("content-encoding"@) ==> bytes.len() == 0);
    let mut i: usize = 0;
    while i < values.len()
        invariant
            i <= values.len(),
            bytes.len() == values@.len(),
            forall|k: int|
                #![trigger values@[k]]
                0 <= k < bytes.len() ==> bytes[k] == crate::header_map::value_bytes(*values@[k]),
            forall|k: int| #![trigger bytes[k]] 0 <= k < i ==> !names_coding(bytes[k]),
            fields == crate::header_map::header_fields(*headers),
            fields.contains_key("content-encoding"@) ==> bytes == fields["content-encoding"@],
            !fields.contains_key("content-encoding"@) ==> bytes.len() == 0,
            crate::text::lower("identity"@) == "identity"@,
            vstd::utf8::is_ascii_chars("identity"@),
        decreases values.len() - i,
    {
        let coded = match value_text(values[i]) {
            Some(text) => {
                let coding = trim(text);
                coding.unicode_len() > 0 && !same_word(coding, "identity")
            },
            None => true,
        };
        assert(coded == names_coding(bytes[i as int]));
        if coded {
            assert(names_coding(fields["content-encoding"@][i as int]));
            return true;
        }
        i = i + 1;
    }
    false
}

/// Decides how the body of a response goes to the client.
///
/// It is masked only where masking is configured, the body is text or a form
/// and not encoded, and it declares a length within the masking ceiling. Any
/// other body is streamed, so that none is ever buffered without bound, nor
/// a compressed one read as text.
pub fn build_response(headers: &HeaderMap<HeaderValue>, config: &RuntimeConfig) -> (r: BodyPlan)
    ensures
        r == body_plan(crate::header_map::header_fields(*headers), *config),
{
    proof {
        reveal_strlit("content-type");
        crate::headers::lemma_small_name("content-type"@);
        reveal_strlit("text/");
        reveal_strlit("application/x-www-form-urlencoded");
    }
    let is_textual = match header_text(headers, &static_name("content-type")) {
        Some(kind) => contains(kind, "text/") || contains(
            kind,
            "application/x-www-form-urlencoded",
        ),
        None => false,
    };
    let is_encoded = is_encoded(headers);
    let within_ceiling = match declared_body_length(headers) {
        Some(length) => length <= config.mask_max_body_size,
        None => false,
    };
    if !config.masking || !is_textual || is_encoded || !within_ceiling {
        return BodyPlan::Stream;
    }
    BodyPlan::Mask { ceiling: body_limit(config.mask_max_body_size) }
}

/// The error of a response whose body could not be read for masking.
pub fn masking_failed(reason: &str) -> (e: ProxyError)
    ensures
        e@ == crate::error::ErrorView::Internal(
            "failed to read upstream body for masking: "@ + reason@,
        ),
{
    let mut message = "failed to read upstream body for masking: ".to_owned();
    message.append(reason);
    ProxyError::Internal(message)
}

/// The bytes under which a response carries the identifier of its request.
pub open spec fn id_bytes(id: Seq<char>, seq: u64) -> Seq<u8> {
    let bytes = vstd::utf8::encode_utf8(id);
    if forall|i: int|
        #![trigger bytes[i]]
        0 <= i < bytes.len() ==> crate::header_map::value_byte(bytes[i]) {
        bytes
    } else {
        vstd::utf8::encode_utf8(crate::text::decimal(seq as nat))
    }
}

/// The headers with the length of a body that was masked, if it was.
pub open spec fn sized(fields: Map<Seq<char>, Seq<Seq<u8>>>, masked: Option<u64>) -> Map<
    Seq<char>,
    Seq<Seq<u8>>,
> {
    match masked {
        Some(length) => fields.insert(
            "content-length"@,
            seq![vstd::utf8::encode_utf8(crate::text::decimal(length as nat))],
        ),
        None => fields,
    }
}

/// The headers with which a response goes to the client. `masked` is the
/// length of a body that was masked.
pub open spec fn completed(
    fields: Map<Seq<char>, Seq<Seq<u8>>>,
    masked: Option<u64>,
    id: Seq<char>,
    seq: u64,
) -> Map<Seq<char>, Seq<Seq<u8>>> {
    sized(fields, masked).insert("x-request-id"@, seq![id_bytes(id, seq)])
}

/// The length of a masked body, if there is one.
pub open spec fn masked_length(masked: Option<&[u8]>) -> Option<u64> {
    match masked {
        Some(body) => Some(body@.len() as u64),
        None => None,
    }
}

/// Completes the headers of a response: the length of its body where this is
/// a `masked` one, and the identifier of its request. Where the map is too
/// full for them, at most the length has changed.
pub fn complete_response(
    headers: &mut HeaderMap<HeaderValue>,
    masked: Option<&[u8]>,
    id: &str,
    seq: u64,
) -> (r: Result<(), ProxyError>)
    ensures
        crate::header_map::distinct_names(*old(headers)) + 2 <= crate::header_map::ROOMY
            ==> r is Ok,
        r is Ok ==> crate::header_map::header_fields(*final(headers)) == completed(
            crate::header_map::header_fields(*old(headers)),
            masked_length(masked),
            id@,
            seq,
        ),
        r matches Err(e) ==> e@ == crate::headers::no_room() && (crate::header_map::header_fields(
            *final(headers),
        ) == crate::header_map::header_fields(*old(headers)) || crate::header_map::header_fields(
            *final(headers),
        ) == sized(crate::header_map::header_fields(*old(headers)), masked_length(masked))),
{
    if let Some(body) = masked {
        let length: u64 = body.len() as u64;
        if let Err(e) = put_header(headers, content_length(), number_value(length)) {
            return Err(e);
        }
    }
    let value = match parse_value(id) {
        Some(value) => value,
        None => number_value(seq),
    };
    put_header(headers, request_id_name(), value)
}

/// What bytes read as text, with a replacement character for what is not
/// UTF-8 in them.
pub uninterp spec fn lossy_text(bytes: Seq<u8>) -> Seq<char>;

/// `String::from_utf8_lossy`, with the text as an owned string. Bytes that are
/// UTF-8 read as the text that they encode.
#[verifier::external_body]
fn decode_lossy(bytes: &[u8]) -> (text: String)
    ensures
        text@ == lossy_text(bytes@),
        vstd::utf8::valid_utf8(bytes@) ==> text@ == vstd::utf8::decode_utf8(bytes@),
{
    String::from_utf8_lossy(bytes).into_owned()
}

/// The text of a body that is to be masked.
pub open spec fn body_text(bytes: Seq<u8>) -> Seq<char> {
    if vstd::utf8::valid_utf8(bytes) {
        vstd::utf8::decode_utf8(bytes)
    } else {
        lossy_text(bytes)
    }
}

/// `sent` is the body that `mask` makes of the text of `body`.
pub open spec fn masks<F: Fn(&str) -> String>(mask: F, body: Seq<u8>, sent: Seq<u8>) -> bool {
    exists|text: &str, masked: String|
        text@ == body_text(body) && #[trigger] call_ensures(mask, (text,), masked) && sent
            == vstd::utf8::encode_utf8(masked@)
}

/// Masks the body of a response and completes its headers for the body that
/// this makes, which is returned. Where the map is too full for what is added,
/// no header but the length has changed.
pub fn mask_response<F: Fn(&str) -> String>(
    headers: &mut HeaderMap<HeaderValue>,
    body: &[u8],
    mask: F,
    id: &str,
    seq: u64,
) -> (r: Result<Vec<u8>, ProxyError>)
    requires
        forall|text: &str| #[trigger] call_requires(mask, (text,)),
    ensures
        crate::header_map::distinct_names(*old(headers)) + 2 <= crate::header_map::ROOMY
            ==> r is Ok,
        r matches Ok(sent) ==> masks(mask, body@, sent@) && crate::header_map::header_fields(
            *final(headers),
        ) == completed(
            crate::header_map::header_fields(*old(headers)),
            Some(sent@.len() as u64),
            id@,
            seq,
        ),
        r matches Err(e) ==> e@ == crate::headers::no_room() && crate::header_map::header_fields(
            *final(headers),
        ).remove("content-length"@) == crate::header_map::header_fields(*old(headers)).remove(
            "content-length"@,
        ),
{
    let text = decode_lossy(body);
    let masked = mask(text.as_str());
    let sent = masked.as_str().as_bytes_vec();
    match complete_response(headers, Some(sent.as_slice()), id, seq) {
        Ok(()) => Ok(sent),
        Err(e) => {
            assert(crate::header_map::header_fields(*headers).remove("content-length"@)
                =~= crate::header_map::header_fields(*old(headers)).remove("content-length"@));
            Err(e)
        },
    }
}

proof fn lemma_first_blocked_header(
    fields: Map<Seq<char>, Seq<Seq<u8>>>,
    blocked: Seq<HeaderName>,
)
    ensures
        match first_blocked_header(fields, blocked) {
            Some(name) => crate::headers::names_in(blocked).contains(name)
                && fields.contains_key(name),
            None => forall|name: Seq<char>| #[trigger]
                crate::headers::names_in(blocked).contains(name) ==> !fields.contains_key(name),
        },
    decreases blocked.len(),
{
    if blocked.len() > 0 {
        let rest = blocked.drop_first();
        lemma_first_blocked_header(fields, rest);
        assert(crate::headers::names_in(blocked).contains(
            crate::header_map::name_text(blocked[0]),
        ));
        assert forall|name: Seq<char>| #[trigger]
            crate::headers::names_in(rest).contains(name) implies crate::headers::names_in(
            blocked,
        ).contains(name) by {
            let i = choose|i: int|
                0 <= i < rest.len() && #[trigger] crate::header_map::name_text(rest[i]) == name;
            assert(crate::header_map::name_text(blocked[i + 1]) == name);
        }
        if first_blocked_header(fields, blocked) is None {
            assert forall|name: Seq<char>| #[trigger]
                crate::headers::names_in(blocked).contains(name) implies !fields.contains_key(
                name,
            ) by {
                let i = choose|i: int|
                    0 <= i < blocked.len() && #[trigger] crate::header_map::name_text(blocked[i])
                        == name;
                if i > 0 {
                    assert(crate::header_map::name_text(rest[i - 1]) == name);
                    assert(crate::headers::names_in(rest).contains(name));
                }
            }
        }
    }
}

proof fn lemma_first_blocked_key(pairs: Seq<(Seq<char>, Seq<char>)>, blocked: Seq<Seq<char>>)
    ensures
        match first_blocked_key(pairs, blocked) {
            Some(key) => blocked.contains(key) && exists|i: int|
                0 <= i < pairs.len() && (#[trigger] pairs[i]).0 == key,
            None => forall|i: int|
                #![trigger pairs[i]]
                0 <= i < pairs.len() ==> !blocked.contains(pairs[i].0),
        },
    decreases pairs.len(),
{
    if pairs.len() > 0 {
        let rest = pairs.drop_first();
        lemma_first_blocked_key(rest, blocked);
        if !blocked.contains(pairs[0].0) {
            match first_blocked_key(pairs, blocked) {
                Some(key) => {
                    let i = choose|i: int| 0 <= i < rest.len() && (#[trigger] rest[i]).0 == key;
                    assert(pairs[i + 1].0 == key);
                },
                None => {
                    assert forall|i: int| 0 <= i < pairs.len() implies !blocked.contains(
                        (#[trigger] pairs[i]).0,
                    ) by {
                        if i > 0 {
                            assert(rest[i - 1] == pairs[i]);
                        }
                    }
                },
            }
        }
    }
}

/// The policy turns a request away exactly when it carries a blocked header,
/// or when one of its decoded query keys is, as a whole, a blocked parameter.
/// The reason that is given names a rule that the request did break.
pub proof fn law_policy_is_exact(
    fields: Map<Seq<char>, Seq<Seq<u8>>>,
    pairs: Seq<(Seq<char>, Seq<char>)>,
    config: RuntimeConfig,
)
    ensures
        violation(fields, pairs, config) is Some <==> ((exists|name: Seq<char>| #[trigger]
            crate::headers::names_in(config.blocked_headers@).contains(name)
                && fields.contains_key(name)) || (exists|i: int|
            0 <= i < pairs.len() && texts(config.blocked_params@).contains(
                (#[trigger] pairs[i]).0,
            ))),
        violation(fields, pairs, config) matches Some(rule) ==> match rule {
            crate::error::ErrorView::BlockedHeader(name) => crate::headers::names_in(
                config.blocked_headers@,
            ).contains(name) && fields.contains_key(name),
            crate::error::ErrorView::BlockedParam(key) => texts(config.blocked_params@).contains(
                key,
            ) && exists|i: int| 0 <= i < pairs.len() && (#[trigger] pairs[i]).0 == key,
            _ => false,
        },
{
    lemma_first_blocked_header(fields, config.blocked_headers@);
    lemma_first_blocked_key(pairs, texts(config.blocked_params@));
}

/// Each reason for which a request is turned away has its status: 429 for
/// the rate, whatever else is wrong with the request, then 400 for ambiguous
/// framing, then 413 for a declared length over the limit, then 403 for the
/// policy. A request that none of them concerns is let through.
pub proof fn law_refusals_have_a_status(
    fields: Map<Seq<char>, Seq<Seq<u8>>>,
    pairs: Seq<(Seq<char>, Seq<char>)>,
    retry_after_ms: Option<u64>,
    config: RuntimeConfig,
)
    ensures
        ({
            let too_large = crate::headers::declared_length(fields) matches Some(length) && length
                > config.max_body_size;
            let status = match turned_away(fields, pairs, retry_after_ms, config) {
                Some(reason) => reason.refusal(),
                None => None,
            };
            status == if retry_after_ms is Some {
                Some(429u16)
            } else if crate::headers::ambiguous_framing(fields) {
                Some(400u16)
            } else if too_large {
                Some(413u16)
            } else if violation(fields, pairs, config) is Some {
                Some(403u16)
            } else {
                None
            }
        }),
{
}

/// A request reaches its backend without any header that only concerns the
/// client's connection, without the blocked ones, and without those that the
/// client's `Connection` header names, but for the four that the proxy writes
/// itself.
pub proof fn law_outbound_is_clean(
    fields: Map<Seq<char>, Seq<Seq<u8>>>,
    client: Seq<char>,
    tls: bool,
    authority: Seq<char>,
    config: RuntimeConfig,
    name: Seq<char>,
)
    requires
        crate::headers::connection_scoped(name) || crate::headers::names_in(
            config.blocked_headers@,
        ).contains(name) || (crate::headers::connection_lists(fields, name)
            && !crate::headers::forwarding_name(name) && name != "host"@),
    ensures
        !outbound(fields, client, tls, authority, config).contains_key(name),
{
    crate::headers::lemma_names_apart();
    crate::headers::law_stripping_is_exact(fields, name);
    if !crate::headers::forwarding_name(name) {
        crate::headers::law_forwarding_touches_nothing_else(
            crate::headers::end_to_end(fields),
            client,
            tls,
            config.trust_forwarded_headers,
            name,
        );
    }
}

/// Every other header of a request reaches its backend as the client sent it.
pub proof fn law_outbound_keeps_the_rest(
    fields: Map<Seq<char>, Seq<Seq<u8>>>,
    client: Seq<char>,
    tls: bool,
    authority: Seq<char>,
    config: RuntimeConfig,
    name: Seq<char>,
)
    requires
        !crate::headers::connection_scoped(name),
        !crate::headers::connection_lists(fields, name),
        !crate::headers::names_in(config.blocked_headers@).contains(name),
        !crate::headers::forwarding_name(name),
        name != "host"@,
    ensures
        outbound(fields, client, tls, authority, config).contains_key(name)
            <==> fields.contains_key(name),
        fields.contains_key(name) ==> outbound(fields, client, tls, authority, config)[name]
            == fields[name],
{
    crate::headers::law_stripping_is_exact(fields, name);
    crate::headers::law_forwarding_touches_nothing_else(
        crate::headers::end_to_end(fields),
        client,
        tls,
        config.trust_forwarded_headers,
        name,
    );
}

/// A backend is asked under its own authority, and, unless the client is
/// trusted, told the address and the scheme from which the request came,
/// whatever the client claimed. A header that is itself blocked is not sent.
pub proof fn law_outbound_origin(
    fields: Map<Seq<char>, Seq<Seq<u8>>>,
    client: Seq<char>,
    tls: bool,
    authority: Seq<char>,
    config: RuntimeConfig,
)
    ensures
        ({
            let sent = outbound(fields, client, tls, authority, config);
            let blocked = crate::headers::names_in(config.blocked_headers@);
            &&& !blocked.contains("host"@) ==> sent.contains_key("host"@) && sent["host"@] == seq![
                vstd::utf8::encode_utf8(authority),
            ]
            &&& !config.trust_forwarded_headers && !blocked.contains("x-forwarded-for"@)
                ==> sent.contains_key("x-forwarded-for"@) && sent["x-forwarded-for"@] == seq![
                vstd::utf8::encode_utf8(client),
            ]
            &&& !config.trust_forwarded_headers && !blocked.contains("x-forwarded-proto"@)
                ==> sent.contains_key("x-forwarded-proto"@) && sent["x-forwarded-proto"@] == seq![
                vstd::utf8::encode_utf8(crate::headers::inbound_scheme(tls)),
            ]
        }),
{
    crate::headers::lemma_names_apart();
}

/// A body that turns out to be over the limit on its way is refused like one
/// that declares it, and does not count against the backend.
pub proof fn law_oversized_body_is_refused(
    backend: crate::upstream::UpstreamView,
    config: RuntimeConfig,
    now: u64,
)
    ensures
        outcome_error(Outcome::BodyOverLimit, config) matches Some(reason) && reason.refusal()
            == Some(413u16) && reason == (crate::error::ErrorView::BodyTooLarge {
            limit: config.max_body_size,
        }),
        settled(backend, Outcome::BodyOverLimit, config, now) == backend,
{
}

/// A body is buffered only up to the masking ceiling, only if it is text
/// that is not encoded, and only if it declares that it fits.
pub proof fn law_masking_is_bounded(
    fields: Map<Seq<char>, Seq<Seq<u8>>>,
    config: RuntimeConfig,
)
    ensures
        match body_plan(fields, config) {
            BodyPlan::Mask { ceiling } => ceiling <= config.mask_max_body_size && config.masking
                && textual(fields) && !encoded(fields) && (crate::headers::declared_length(
                fields,
            ) matches Some(length) && length <= config.mask_max_body_size),
            BodyPlan::Stream => true,
        },
        !config.masking || encoded(fields) || crate::headers::declared_length(fields) is None
            ==> body_plan(fields, config) == BodyPlan::Stream,
{
}

/// A response reaches the client without the headers of the upstream
/// connection and without those that the configuration withholds, and with
/// every other header as it was.
pub proof fn law_response_is_clean(
    fields: Map<Seq<char>, Seq<Seq<u8>>>,
    config: RuntimeConfig,
    name: Seq<char>,
)
    ensures
        cleaned(fields, config).contains_key(name) <==> (fields.contains_key(name)
            && !crate::headers::connection_scoped(name) && !crate::headers::connection_lists(
            fields,
            name,
        ) && !crate::headers::names_in(config.strip_response_headers@).contains(name)),
        cleaned(fields, config).contains_key(name) ==> cleaned(fields, config)[name]
            == fields[name],
{
}

proof fn lemma_id_is_text(fields: Map<Seq<char>, Seq<Seq<u8>>>, seq: u64)
    ensures
        crate::text::is_text(assigned_id(fields, seq)),
        id_bytes(assigned_id(fields, seq), seq) == vstd::utf8::encode_utf8(
            assigned_id(fields, seq),
        ),
        crate::header_map::value_as_text(vstd::utf8::encode_utf8(assigned_id(fields, seq))) == Some(
            assigned_id(fields, seq),
        ),
{
    let id = assigned_id(fields, seq);
    crate::text::lemma_decimal_digits(seq as nat);
    assert(crate::text::is_text(id));
    crate::text::lemma_ascii_spelled(id);
    let bytes = vstd::utf8::encode_utf8(id);
    assert(Seq::new(bytes.len(), |i: int| bytes[i] as char) =~= id);
}

/// Every response carries the identifier of its request: the one that the
/// client gave it where that was acceptable, and otherwise its sequence
/// number. Whoever reads the header back reads that identifier.
pub proof fn law_response_carries_the_id(
    request: Map<Seq<char>, Seq<Seq<u8>>>,
    seq: u64,
    response: Map<Seq<char>, Seq<Seq<u8>>>,
    masked: Option<u64>,
)
    ensures
        crate::headers::first_text(
            completed(response, masked, assigned_id(request, seq), seq),
            "x-request-id"@,
        ) == Some(assigned_id(request, seq)),
{
    lemma_id_is_text(request, seq);
}

/// Requests that bring no identifier of their own get numbers that grow: of
/// two of them, the response to the later one carries a number that is greater
/// by one more than the requests between them, as long as the last number has
/// not been passed.
pub proof fn law_generated_ids_grow(
    earlier: Map<Seq<char>, Seq<Seq<u8>>>,
    later: Map<Seq<char>, Seq<Seq<u8>>>,
    number: u64,
    between: nat,
    responses: (Map<Seq<char>, Seq<Seq<u8>>>, Map<Seq<char>, Seq<Seq<u8>>>),
    masked: (Option<u64>, Option<u64>),
)
    requires
        inbound_id(earlier) is None,
        inbound_id(later) is None,
        number + 1 + between <= u64::MAX,
    ensures
        ({
            let second = crate::sequence::after(crate::sequence::following(number), between);
            let first_id = crate::headers::first_text(
                completed(responses.0, masked.0, assigned_id(earlier, number), number),
                "x-request-id"@,
            );
            let second_id = crate::headers::first_text(
                completed(responses.1, masked.1, assigned_id(later, second), second),
                "x-request-id"@,
            );
            &&& first_id matches Some(text) && crate::text::parsed_u64(text) == Some(number)
            &&& second_id matches Some(text) && crate::text::parsed_u64(text) == Some(
                (number + 1 + between) as u64,
            )
        }),
{
    let second = crate::sequence::after(crate::sequence::following(number), between);
    crate::sequence::law_numbers_grow(number, between);
    law_response_carries_the_id(earlier, number, responses.0, masked.0);
    law_response_carries_the_id(later, second, responses.1, masked.1);
    crate::text::lemma_decimal_reads_back(number);
    crate::text::lemma_decimal_reads_back(second);
}

/// A masked response declares the length of its masked body, and a streamed
/// one the length that it had.
pub proof fn law_response_length(
    response: Map<Seq<char>, Seq<Seq<u8>>>,
    masked: Option<u64>,
    id: Seq<char>,
    seq: u64,
)
    ensures
        crate::headers::declared_length(completed(response, masked, id, seq)) == match masked {
            Some(length) => Some(length),
            None => crate::headers::declared_length(response),
        },
{
    reveal_strlit("content-length");
    reveal_strlit("x-request-id");
    assert("content-length"@.len() != "x-request-id"@.len());
    if let Some(length) = masked {
        crate::text::lemma_decimal_reads_back(length);
        let digits = crate::text::decimal(length as nat);
        crate::text::lemma_decimal_digits(length as nat);
        crate::text::lemma_ascii_spelled(digits);
        let bytes = vstd::utf8::encode_utf8(digits);
        assert(Seq::new(bytes.len(), |i: int| bytes[i] as char) =~= digits);
    }
}

/// A client's identifier is taken exactly when the first `X-Request-Id` is
/// text that leaves, without the blanks around it, between one and 128
/// characters from the exclamation mark to the tilde. It is taken as it is,
/// and a request without one goes by its number.
pub proof fn law_which_id_a_request_has(
    fields: Map<Seq<char>, Seq<Seq<u8>>>,
    seq: u64,
    id: Seq<char>,
)
    ensures
        inbound_id(fields) == Some(id) <==> fields.contains_key("x-request-id"@) && (exists|
            text: Seq<char>,
        |
            crate::header_map::value_as_text(fields["x-request-id"@][0]) == Some(text) && id
                == #[trigger] crate::text::trimmed(text)) && 0 < id.len() <= 128 && forall|i: int|
            #![trigger id[i]]
            0 <= i < id.len() ==> '!' <= id[i] <= '~',
        inbound_id(fields) == Some(id) ==> assigned_id(fields, seq) == id,
        inbound_id(fields) is None ==> assigned_id(fields, seq) == crate::text::decimal(seq as nat),
{
    if inbound_id(fields) == Some(id) {
        let text = crate::header_map::value_as_text(fields["x-request-id"@][0])->Some_0;
        assert(id == crate::text::trimmed(text));
        assert forall|i: int| 0 <= i < id.len() implies '!' <= #[trigger] id[i] <= '~' by {
            assert(crate::text::graphic(id[i]));
        }
    }
}

proof fn lemma_first_header_in_order(
    fields: Map<Seq<char>, Seq<Seq<u8>>>,
    blocked: Seq<HeaderName>,
) -> (i: int)
    ensures
        match first_blocked_header(fields, blocked) {
            Some(name) => 0 <= i < blocked.len() && name == crate::header_map::name_text(blocked[i])
                && fields.contains_key(name) && forall|j: int|
                #![trigger blocked[j]]
                0 <= j < i ==> !fields.contains_key(crate::header_map::name_text(blocked[j])),
            None => forall|j: int|
                #![trigger blocked[j]]
                0 <= j < blocked.len() ==> !fields.contains_key(
                    crate::header_map::name_text(blocked[j]),
                ),
        },
    decreases blocked.len(),
{
    if blocked.len() == 0 || fields.contains_key(crate::header_map::name_text(blocked[0])) {
        0
    } else {
        let rest = blocked.drop_first();
        let i = lemma_first_header_in_order(fields, rest);
        assert forall|j: int|
            0 <= j < blocked.len() && (first_blocked_header(fields, blocked) is None || j < i
                + 1) implies !fields.contains_key(
            crate::header_map::name_text(#[trigger] blocked[j]),
        ) by {
            if j > 0 {
                assert(rest[j - 1] == blocked[j]);
            }
        }
        i + 1
    }
}

proof fn lemma_first_key_in_order(
    pairs: Seq<(Seq<char>, Seq<char>)>,
    blocked: Seq<Seq<char>>,
) -> (i: int)
    ensures
        match first_blocked_key(pairs, blocked) {
            Some(key) => 0 <= i < pairs.len() && key == pairs[i].0 && blocked.contains(key)
                && forall|j: int|
                #![trigger pairs[j]]
                0 <= j < i ==> !blocked.contains(pairs[j].0),
            None => forall|j: int|
                #![trigger pairs[j]]
                0 <= j < pairs.len() ==> !blocked.contains(pairs[j].0),
        },
    decreases pairs.len(),
{
    if pairs.len() == 0 || blocked.contains(pairs[0].0) {
        0
    } else {
        let rest = pairs.drop_first();
        let i = lemma_first_key_in_order(rest, blocked);
        assert forall|j: int|
            0 <= j < pairs.len() && (first_blocked_key(pairs, blocked) is None || j < i
                + 1) implies !blocked.contains((#[trigger] pairs[j]).0) by {
            if j > 0 {
                assert(rest[j - 1] == pairs[j]);
            }
        }
        i + 1
    }
}

/// `key` is spelled like one of the blocked parameters.
proof fn lemma_blocked_key(blocked: Seq<String>, key: Seq<char>)
    ensures
        texts(blocked).contains(key) <==> exists|p: int|
            0 <= p < blocked.len() && (#[trigger] blocked[p])@ == key,
{
    if texts(blocked).contains(key) {
        let p = choose|p: int| 0 <= p < texts(blocked).len() && texts(blocked)[p] == key;
        assert(blocked[p]@ == key);
    }
    if exists|p: int| 0 <= p < blocked.len() && (#[trigger] blocked[p])@ == key {
        let p = choose|p: int| 0 <= p < blocked.len() && (#[trigger] blocked[p])@ == key;
        assert(texts(blocked)[p] == key);
    }
}

/// The policy names the first of the blocked headers that a request carries,
/// in the order of the configuration. A request that carries none is held to
/// its query, of which the first key that is spelled like a blocked parameter
/// is named. A request that has none of these either breaks no rule.
pub proof fn law_policy_names_the_first_rule_broken(
    fields: Map<Seq<char>, Seq<Seq<u8>>>,
    pairs: Seq<(Seq<char>, Seq<char>)>,
    config: RuntimeConfig,
)
    ensures
        ({
            let headers = config.blocked_headers@;
            let params = config.blocked_params@;
            let clean = forall|j: int|
                #![trigger headers[j]]
                0 <= j < headers.len() ==> !fields.contains_key(
                    crate::header_map::name_text(headers[j]),
                );
            match violation(fields, pairs, config) {
                Some(crate::error::ErrorView::BlockedHeader(name)) => exists|i: int|
                    0 <= i < headers.len() && name == crate::header_map::name_text(
                        #[trigger] headers[i],
                    ) && fields.contains_key(name) && forall|j: int|
                        #![trigger headers[j]]
                        0 <= j < i ==> !fields.contains_key(
                            crate::header_map::name_text(headers[j]),
                        ),
                Some(crate::error::ErrorView::BlockedParam(key)) => clean && exists|i: int|
                    0 <= i < pairs.len() && (#[trigger] pairs[i]).0 == key && (exists|p: int|
                        0 <= p < params.len() && (#[trigger] params[p])@ == key) && forall|
                        j: int,
                        p: int,
                    |
                        #![trigger pairs[j], params[p]]
                        0 <= j < i && 0 <= p < params.len() ==> pairs[j].0 != params[p]@,
                Some(_) => false,
                None => clean && forall|j: int, p: int|
                    #![trigger pairs[j], params[p]]
                    0 <= j < pairs.len() && 0 <= p < params.len() ==> pairs[j].0 != params[p]@,
            }
        }),
{
    let headers = config.blocked_headers@;
    let params = config.blocked_params@;
    let i = lemma_first_header_in_order(fields, headers);
    let k = lemma_first_key_in_order(pairs, texts(params));
    match violation(fields, pairs, config) {
        Some(crate::error::ErrorView::BlockedHeader(name)) => {
            assert(name == crate::header_map::name_text(headers[i]));
        },
        Some(crate::error::ErrorView::BlockedParam(key)) => {
            lemma_blocked_key(params, key);
            assert(pairs[k].0 == key);
            assert forall|j: int, p: int|
                #![trigger pairs[j], params[p]]
                0 <= j < k && 0 <= p < params.len() implies pairs[j].0 != params[p]@ by {
                lemma_blocked_key(params, pairs[j].0);
            }
        },
        Some(_) => {},
        None => {
            assert forall|j: int, p: int|
                #![trigger pairs[j], params[p]]
                0 <= j < pairs.len() && 0 <= p < params.len() implies pairs[j].0 != params[p]@ by {
                lemma_blocked_key(params, pairs[j].0);
            }
        },
    }
}

/// A policy is read as it is configured, and a query as its decoded pairs: a
/// URI without a query has none.
pub proof fn law_texts_are_read_as_they_are(
    list: Seq<String>,
    pairs: Seq<(String, String)>,
    uri: crate::uri::UriView,
)
    ensures
        texts(list).len() == list.len(),
        forall|i: int| #![trigger list[i]] 0 <= i < list.len() ==> texts(list)[i] == list[i]@,
        text_pairs(pairs).len() == pairs.len(),
        forall|i: int|
            #![trigger pairs[i]]
            0 <= i < pairs.len() ==> text_pairs(pairs)[i] == (pairs[i].0@, pairs[i].1@),
        uri.query is None ==> query_pairs(uri).len() == 0,
        uri.query matches Some(query) ==> query_pairs(uri) == form_pairs(
            vstd::utf8::encode_utf8(query),
        ),
{
}

/// The reasons for which a request is turned away come in this order: the
/// rate of its client, two framings at once, a declared length above the
/// limit, and the policy. One to which none applies is let through.
pub proof fn law_reasons_come_in_order(
    fields: Map<Seq<char>, Seq<Seq<u8>>>,
    pairs: Seq<(Seq<char>, Seq<char>)>,
    retry_after_ms: Option<u64>,
    config: RuntimeConfig,
)
    ensures
        ({
            let reason = turned_away(fields, pairs, retry_after_ms, config);
            let smuggled = fields.contains_key("content-length"@) && fields.contains_key(
                "transfer-encoding"@,
            );
            let too_large = crate::headers::declared_length(fields) matches Some(n) && n
                > config.max_body_size;
            &&& retry_after_ms matches Some(ms) ==> reason == Some(
                crate::error::ErrorView::RateLimited { retry_after_ms: ms },
            )
            &&& retry_after_ms is None && smuggled ==> reason == Some(
                crate::error::ErrorView::RequestSmuggling,
            )
            &&& retry_after_ms is None && !smuggled && too_large ==> reason == Some(
                crate::error::ErrorView::BodyTooLarge { limit: config.max_body_size },
            )
            &&& retry_after_ms is None && !smuggled && !too_large ==> reason == violation(
                fields,
                pairs,
                config,
            )
        }),
{
}

/// A request goes to its backend with the path and query that it has, as they
/// are, and to the root only where it has none. It goes to the scheme and the
/// authority of the backend, and to neither of its own. A backend without an
/// authority, or without a scheme, cannot be asked.
pub proof fn law_rewriting_keeps_the_path(
    original: crate::uri::UriView,
    upstream: crate::uri::UriView,
)
    ensures
        upstream.authority is None ==> target(original, upstream) == Err::<
            crate::uri::UriView,
            crate::error::ErrorView,
        >(crate::error::ErrorView::InvalidUpstream("upstream has no authority"@)),
        upstream.authority is Some && upstream.scheme is None ==> target(original, upstream) == Err::<
            crate::uri::UriView,
            crate::error::ErrorView,
        >(crate::error::ErrorView::InvalidUpstream("upstream has no scheme"@)),
        upstream.authority is Some && upstream.scheme is Some ==> target(original, upstream) is Ok,
        target(original, upstream) matches Ok(uri) ==> {
            let start = upstream.scheme->Some_0 + "://"@ + upstream.authority->Some_0;
            &&& uri.scheme == upstream.scheme
            &&& uri.authority == upstream.authority
            &&& crate::uri::reusable(original) ==> uri.query == original.query
            &&& original.path_and_query matches Some(path) ==> uri.path_and_query == Some(path) && (
            path.len() > 0 ==> uri.text == if path[0] == '?' {
                start + "/"@ + path
            } else {
                start + path
            })
            &&& original.path_and_query is None ==> uri.path_and_query == Some("/"@) && uri.text
                == start + "/"@
        },
{
    reveal_strlit("/");
    assert("/"@ =~= seq!['/']);
    if crate::uri::reusable(original) {
        law_screened_query_is_forwarded(original, upstream);
    }
    if upstream.authority is Some && upstream.scheme is Some {
        let path = match original.path_and_query {
            Some(p) => p,
            None => "/"@,
        };
        crate::uri::law_assembled_uri_keeps_its_parts(
            upstream.scheme->Some_0,
            upstream.authority->Some_0,
            path,
        );
    }
}

/// Every header with which a request reaches its backend. The blocked ones are
/// not sent. Of the others, the host is that of the backend, the origin of the
/// request is in the forwarding headers, and the rest is what the client sent,
/// but for nine headers of its connection and those that it says are of it.
pub proof fn law_every_header_that_is_sent(
    fields: Map<Seq<char>, Seq<Seq<u8>>>,
    client: Seq<char>,
    tls: bool,
    authority: Seq<char>,
    config: RuntimeConfig,
    name: Seq<char>,
)
    ensures
        ({
            let sent = outbound(fields, client, tls, authority, config);
            let trust = config.trust_forwarded_headers;
            let nine = seq![
                "connection"@,
                "keep-alive"@,
                "proxy-authenticate"@,
                "proxy-authorization"@,
                "proxy-connection"@,
                "te"@,
                "trailer"@,
                "transfer-encoding"@,
                "upgrade"@,
            ];
            let blocked = exists|i: int|
                0 <= i < config.blocked_headers@.len() && name == crate::header_map::name_text(
                    #[trigger] config.blocked_headers@[i],
                );
            let kept = |n: Seq<char>|
                fields.contains_key(n) && !crate::headers::connection_lists(fields, n);
            &&& blocked ==> !sent.contains_key(name)
            &&& !blocked && name == "host"@ ==> sent.contains_key(name) && sent[name] == seq![
                vstd::utf8::encode_utf8(authority),
            ]
            &&& !blocked && name == "x-forwarded-for"@ ==> sent.contains_key(name) && (!trust
                || !kept(name) ==> sent[name] == seq![vstd::utf8::encode_utf8(client)]) && (trust
                && kept(name) ==> sent[name] == crate::headers::forwarded(
                fields,
                client,
                tls,
                true,
            )[name])
            &&& !blocked && name == "x-forwarded-proto"@ ==> sent.contains_key(name) && sent[name]
                == if trust && kept(name) {
                fields[name]
            } else {
                seq![
                    vstd::utf8::encode_utf8(
                        if tls {
                            "https"@
                        } else {
                            "http"@
                        },
                    ),
                ]
            }
            &&& !blocked && name == "x-forwarded-host"@ && trust && kept(name)
                ==> sent.contains_key(name) && sent[name] == fields[name]
            &&& !blocked && name == "x-forwarded-host"@ && !(trust && kept(name)) ==> (
            sent.contains_key(name) <==> kept("host"@)) && (kept("host"@) ==> sent[name] == seq![
                fields["host"@][0],
            ])
            &&& !blocked && name != "host"@ && name != "x-forwarded-for"@ && name
                != "x-forwarded-proto"@ && name != "x-forwarded-host"@ ==> (sent.contains_key(name)
                <==> kept(name) && !nine.contains(name)) && (kept(name) && !nine.contains(name)
                ==> sent[name] == fields[name])
        }),
{
    let stripped = crate::headers::end_to_end(fields);
    crate::headers::lemma_names_apart();
    crate::headers::law_nine_headers_stay_behind(fields, name);
    crate::headers::law_nine_headers_stay_behind(fields, "host"@);
    crate::headers::law_origin_is_written_anew(stripped, client, tls, config.trust_forwarded_headers);
    crate::headers::law_names_in_a_list(config.blocked_headers@, name);
}

/// What a request becomes that is let through. It goes to the backend that a
/// selection picks, as HTTP/1.1, to the path and with the query that it has,
/// and with the headers for that backend. It is given up only where no backend
/// may be given a request, where the one that was picked cannot be asked, or
/// where its header map is too full.
pub proof fn law_what_becomes_of_a_request(
    before: crate::balancer::BalancerView,
    clock: Seq<u64>,
    original: crate::uri::UriView,
    fields: Map<Seq<char>, Seq<Seq<u8>>>,
    room: bool,
    client: Seq<char>,
    tls: bool,
    config: RuntimeConfig,
    result: Result<Forward, ProxyError>,
    after: crate::balancer::BalancerView,
    fields_after: Map<Seq<char>, Seq<Seq<u8>>>,
)
    requires
        before.current.len() == before.pool.len() <= usize::MAX,
        dispatched(
            before,
            clock,
            original,
            fields,
            room,
            client,
            tls,
            config,
            result,
            after,
            fields_after,
        ),
    ensures
        match result {
            Ok(forward) => {
                let backend = before.pool[forward.upstream as int];
                &&& before.selects(clock, Ok(forward.upstream), after)
                &&& backend.healthy || clock[forward.upstream as int] >= backend.cooldown_until_ms
                &&& backend.uri.scheme is Some && backend.uri.authority is Some
                &&& forward.uri@.scheme == backend.uri.scheme
                &&& forward.uri@.authority == backend.uri.authority
                &&& forward.uri@.query == original.query
                &&& original.path_and_query is Some ==> forward.uri@.path_and_query
                    == original.path_and_query
                &&& original.path_and_query is None ==> forward.uri@.path_and_query == Some("/"@)
                &&& forward.version is Http11
                &&& fields_after == outbound(
                    fields,
                    client,
                    tls,
                    backend.uri.authority->Some_0,
                    config,
                )
            },
            Err(e) => {
                ||| e@ is NoHealthyUpstream && after == before && fields_after == fields && (
                forall|j: int|
                    #![trigger before.pool[j]]
                    0 <= j < before.pool.len() ==> !before.pool[j].healthy && clock[j]
                        < before.pool[j].cooldown_until_ms)
                ||| exists|i: usize| #[trigger]
                    before.selects(clock, Ok(i), after) && {
                        let backend = before.pool[i as int];
                        ||| backend.uri.authority is None && fields_after == fields && e@
                            == crate::error::ErrorView::InvalidUpstream(
                            "upstream has no authority"@,
                        )
                        ||| backend.uri.authority is Some && backend.uri.scheme is None
                            && fields_after == fields && e@
                            == crate::error::ErrorView::InvalidUpstream("upstream has no scheme"@)
                        ||| backend.uri.authority is Some && backend.uri.scheme is Some && !room
                            && e@ == crate::error::ErrorView::Internal("too many headers"@)
                    }
            },
        },
{
    match result {
        Ok(forward) => {
            crate::balancer::law_selection_is_exact(before, clock, Ok(forward.upstream), after);
            law_rewriting_keeps_the_path(original, before.pool[forward.upstream as int].uri);
        },
        Err(e) => {
            if before.any_eligible(clock) {
                let i = choose|i: int| #[trigger]
                    before.picks(clock, i) && after == before.after_pick(clock, i) && match target(
                        original,
                        before.pool[i].uri,
                    ) {
                        Ok(_) => !room && e@ == crate::headers::no_room(),
                        Err(reason) => e@ == reason && fields_after == fields,
                    };
                assert(0 <= i < before.pool.len());
                law_rewriting_keeps_the_path(original, before.pool[i].uri);
                assert(before.selects(clock, Ok(i as usize), after));
            } else {
                assert forall|j: int| 0 <= j < before.pool.len() implies !(
                #[trigger] before.pool[j]).healthy && clock[j] < before.pool[j].cooldown_until_ms by {
                    assert(!before.pool[j].eligible_at(clock[j]));
                }
            }
        },
    }
}

/// A request's header map has room for what the proxy adds while it holds no
/// more than 6550 names.
pub proof fn law_room_for_headers(headers: HeaderMap<HeaderValue>)
    ensures
        roomy(headers) <==> crate::header_map::distinct_names(headers) <= 6550,
{
}

/// What each outcome does to the record of a backend, whatever it was before.
/// A response takes its failures off and counts towards readmission. A failed
/// connection and a timeout count alike, towards ejection. A body over the
/// limit changes nothing.
pub proof fn law_what_an_outcome_does(
    backend: crate::upstream::UpstreamView,
    outcome: Outcome,
    config: RuntimeConfig,
    now: u64,
)
    ensures
        ({
            let after = settled(backend, outcome, config, now);
            let failed = outcome is Failed || outcome is TimedOut;
            &&& after == (crate::upstream::UpstreamView {
                failures: after.failures,
                successes: after.successes,
                healthy: after.healthy,
                cooldown_until_ms: after.cooldown_until_ms,
                ..backend
            })
            &&& outcome is BodyOverLimit ==> after == backend
            &&& outcome is Responded ==> after.failures == 0
            &&& outcome is Responded && backend.healthy ==> after.healthy && after.successes == 0
                && after.cooldown_until_ms == backend.cooldown_until_ms
            &&& outcome is Responded && !backend.healthy && backend.successes + 1
                >= config.healthy_threshold ==> after.healthy && after.successes == 0
                && after.cooldown_until_ms == 0
            &&& outcome is Responded && !backend.healthy && backend.successes + 1
                < config.healthy_threshold ==> !after.healthy && after.successes
                == backend.successes + 1 && after.cooldown_until_ms == backend.cooldown_until_ms
            &&& failed ==> after.successes == 0 && after.failures == (backend.failures + 1)
                % 0x1_0000_0000
            &&& failed ==> (after.healthy <==> backend.healthy && backend.failures + 1
                < config.failure_threshold)
            &&& failed && (!backend.healthy || after.healthy) ==> after.cooldown_until_ms
                == backend.cooldown_until_ms
            &&& failed && backend.healthy && !after.healthy ==> after.cooldown_until_ms == if now
                + backend.cooldown_ms <= u64::MAX {
                now + backend.cooldown_ms
            } else {
                u64::MAX as int
            }
        }),
{
}

/// The record of a backend after a course of outcomes at these times.
pub open spec fn settled_all(
    backend: crate::upstream::UpstreamView,
    outcomes: Seq<Outcome>,
    config: RuntimeConfig,
    times: Seq<u64>,
) -> crate::upstream::UpstreamView
    decreases outcomes.len(),
{
    if outcomes.len() == 0 {
        backend
    } else {
        let last = outcomes.len() - 1;
        settled(
            settled_all(backend, outcomes.drop_last(), config, times),
            outcomes[last],
            config,
            times[last],
        )
    }
}

/// How many of the outcomes were failures since the last response.
pub open spec fn failures_in_a_row(outcomes: Seq<Outcome>) -> nat
    decreases outcomes.len(),
{
    if outcomes.len() == 0 || outcomes.last() is Responded {
        0
    } else {
        failures_in_a_row(outcomes.drop_last()) + if outcomes.last() is BodyOverLimit {
            0nat
        } else {
            1
        }
    }
}

/// A backend that a response has found healthy stays so through any course of
/// outcomes exactly as long as no run of failures between two responses, or
/// since the last, is as long as the threshold, or longer than none where the
/// threshold is zero. What lies before a response does not count.
pub proof fn law_only_failures_in_a_row_eject(
    backend: crate::upstream::UpstreamView,
    outcomes: Seq<Outcome>,
    config: RuntimeConfig,
    now: u64,
    times: Seq<u64>,
)
    requires
        backend.healthy,
        forall|k: int|
            #![trigger outcomes.take(k)]
            0 <= k < outcomes.len() ==> failures_in_a_row(outcomes.take(k)) == 0
                || failures_in_a_row(outcomes.take(k)) < config.failure_threshold,
    ensures
        ({
            let first = settled(backend, Outcome::Responded, config, now);
            let after = settled_all(first, outcomes, config, times);
            let run = failures_in_a_row(outcomes);
            &&& after.healthy <==> run == 0 || run < config.failure_threshold
            &&& after.healthy ==> after.failures == run
        }),
    decreases outcomes.len(),
{
    let first = settled(backend, Outcome::Responded, config, now);
    law_what_an_outcome_does(backend, Outcome::Responded, config, now);
    if outcomes.len() > 0 {
        let last = outcomes.len() - 1;
        let before = outcomes.drop_last();
        assert(outcomes.take(last) =~= before);
        assert forall|k: int| 0 <= k < before.len() implies failures_in_a_row(
            #[trigger] before.take(k),
        ) == 0 || failures_in_a_row(before.take(k)) < config.failure_threshold by {
            assert(before.take(k) =~= outcomes.take(k));
        }
        law_only_failures_in_a_row_eject(backend, before, config, now, times);
        let b = settled_all(first, before, config, times);
        assert(failures_in_a_row(before) == 0 || failures_in_a_row(before)
            < config.failure_threshold);
        law_what_an_outcome_does(b, outcomes[last], config, times[last]);
    }
}

/// An ejected backend needs as many responses in a row as the threshold says,
/// and at least one, to be healthy again. A failure takes those before it off.
pub proof fn law_responses_in_a_row_readmit(
    backend: crate::upstream::UpstreamView,
    outcomes: Seq<Outcome>,
    config: RuntimeConfig,
    now: u64,
    times: Seq<u64>,
)
    requires
        !backend.healthy,
        forall|k: int| #![trigger outcomes[k]] 0 <= k < outcomes.len() ==> outcomes[k] is Responded,
    ensures
        ({
            let first = settled(backend, Outcome::TimedOut, config, now);
            let after = settled_all(first, outcomes, config, times);
            &&& after.healthy <==> outcomes.len() > 0 && outcomes.len() >= config.healthy_threshold
            &&& !after.healthy ==> after.successes == outcomes.len()
        }),
    decreases outcomes.len(),
{
    law_what_an_outcome_does(backend, Outcome::TimedOut, config, now);
    if outcomes.len() > 0 {
        let last = outcomes.len() - 1;
        let before = outcomes.drop_last();
        assert forall|k: int| 0 <= k < before.len() implies #[trigger] before[k] is Responded by {
            assert(outcomes[k] == before[k]);
        }
        law_responses_in_a_row_readmit(backend, before, config, now, times);
        let b = settled_all(
            settled(backend, Outcome::TimedOut, config, now),
            before,
            config,
            times,
        );
        assert(outcomes[last] is Responded);
        law_what_an_outcome_does(b, outcomes[last], config, times[last]);
    }
}

/// A request whose upstream responded goes on. One whose body was over the
/// limit ends with the limit, one whose connection failed with the reason, and
/// one that took too long with the time that it had.
pub proof fn law_how_an_outcome_ends_a_request(outcome: Outcome, config: RuntimeConfig)
    ensures
        match outcome {
            Outcome::Responded => outcome_error(outcome, config) is None,
            Outcome::BodyOverLimit => outcome_error(outcome, config) == Some(
                crate::error::ErrorView::BodyTooLarge { limit: config.max_body_size },
            ),
            Outcome::Failed(reason) => outcome_error(outcome, config) == Some(
                crate::error::ErrorView::Upstream(reason@),
            ),
            Outcome::TimedOut => outcome_error(outcome, config) == Some(
                crate::error::ErrorView::Timeout(config.request_timeout),
            ),
        },
{
}

/// A limit is kept to the byte, unless it is more than a buffer can hold.
pub proof fn law_limits_are_kept(n: u64)
    ensures
        n <= usize::MAX ==> buffer_limit(n) == n,
        n > usize::MAX ==> buffer_limit(n) == usize::MAX,
{
}

/// Every header with which a response is passed on: all that it has but nine
/// of its connection, those that it says are of it, and the withheld ones.
pub proof fn law_every_header_that_is_passed_on(
    fields: Map<Seq<char>, Seq<Seq<u8>>>,
    config: RuntimeConfig,
    name: Seq<char>,
)
    ensures
        ({
            let nine = seq![
                "connection"@,
                "keep-alive"@,
                "proxy-authenticate"@,
                "proxy-authorization"@,
                "proxy-connection"@,
                "te"@,
                "trailer"@,
                "transfer-encoding"@,
                "upgrade"@,
            ];
            let withheld = exists|i: int|
                0 <= i < config.strip_response_headers@.len() && name
                    == crate::header_map::name_text(#[trigger] config.strip_response_headers@[i]);
            &&& cleaned(fields, config).contains_key(name) <==> fields.contains_key(name)
                && !nine.contains(name) && !crate::headers::connection_lists(fields, name)
                && !withheld
            &&& cleaned(fields, config).contains_key(name) ==> cleaned(fields, config)[name]
                == fields[name]
        }),
{
    crate::headers::law_nine_headers_stay_behind(fields, name);
    crate::headers::law_names_in_a_list(config.strip_response_headers@, name);
}

/// A body is masked if and only if masking is configured, its first
/// `Content-Type` is text with `text/` or the type of forms somewhere in it,
/// each of its `Content-Encoding` values is text that says nothing or
/// `identity`, and its declared length is within the ceiling. It is then
/// buffered up to the ceiling. Every other body is streamed.
pub proof fn law_which_bodies_are_masked(
    fields: Map<Seq<char>, Seq<Seq<u8>>>,
    config: RuntimeConfig,
)
    ensures
        ({
            let plan = body_plan(fields, config);
            let maskable = fields.contains_key("content-type"@) && (
            crate::header_map::value_as_text(fields["content-type"@][0]) matches Some(kind) && (
            crate::text::has_part(kind, "text/"@) || crate::text::has_part(
                kind,
                "application/x-www-form-urlencoded"@,
            )));
            let unencoded = fields.contains_key("content-encoding"@) ==> forall|i: int|
                #![trigger fields["content-encoding"@][i]]
                0 <= i < fields["content-encoding"@].len() ==> (crate::header_map::value_as_text(
                    fields["content-encoding"@][i],
                ) matches Some(coding) && (crate::text::trimmed(coding).len() == 0
                    || crate::text::lower(crate::text::trimmed(coding)) == "identity"@));
            let fits = crate::headers::declared_length(fields) matches Some(n) && n
                <= config.mask_max_body_size;
            &&& plan is Mask <==> config.masking && maskable && unencoded && fits
            &&& plan matches BodyPlan::Mask { ceiling } ==> ceiling == if config.mask_max_body_size
                <= usize::MAX {
                config.mask_max_body_size as int
            } else {
                usize::MAX as int
            }
        }),
{
    if fields.contains_key("content-encoding"@) {
        let values = fields["content-encoding"@];
        if !encoded(fields) {
            assert forall|i: int| 0 <= i < values.len() implies !names_coding(
                #[trigger] values[i],
            ) by {}
        } else {
            let i = choose|i: int|
                0 <= i < values.len() && names_coding(#[trigger] fields["content-encoding"@][i]);
            assert(names_coding(values[i]));
        }
    }
}

/// Every header with which a response reaches the client. It has the
/// identifier of its request, as far as a header can hold it, and otherwise
/// the number of the request; a masked body is declared with the length that it
/// has now; all else is as it was.
pub proof fn law_every_header_that_is_returned(
    fields: Map<Seq<char>, Seq<Seq<u8>>>,
    masked: Option<u64>,
    id: Seq<char>,
    seq: u64,
    name: Seq<char>,
)
    ensures
        ({
            let sent = completed(fields, masked, id, seq);
            let bytes = vstd::utf8::encode_utf8(id);
            let fit = forall|i: int|
                #![trigger bytes[i]]
                0 <= i < bytes.len() ==> bytes[i] == 9 || (bytes[i] >= 32 && bytes[i] != 127);
            &&& name == "x-request-id"@ ==> sent.contains_key(name) && sent[name] == seq![
                if fit {
                    bytes
                } else {
                    vstd::utf8::encode_utf8(crate::text::decimal(seq as nat))
                },
            ]
            &&& name == "content-length"@ && masked is Some ==> sent.contains_key(name)
                && sent[name] == seq![
                vstd::utf8::encode_utf8(crate::text::decimal(masked->Some_0 as nat)),
            ]
            &&& name != "x-request-id"@ && (name != "content-length"@ || masked is None) ==> (
            sent.contains_key(name) <==> fields.contains_key(name)) && (fields.contains_key(name)
                ==> sent[name] == fields[name])
            &&& sized(fields, None) == fields
            &&& masked matches Some(length) ==> sized(fields, masked) == fields.insert(
                "content-length"@,
                seq![vstd::utf8::encode_utf8(crate::text::decimal(length as nat))],
            )
        }),
{
    reveal_strlit("content-length");
    reveal_strlit("x-request-id");
    assert("content-length"@.len() != "x-request-id"@.len());
    let bytes = vstd::utf8::encode_utf8(id);
    let fit = forall|i: int|
        #![trigger bytes[i]]
        0 <= i < bytes.len() ==> bytes[i] == 9 || (bytes[i] >= 32 && bytes[i] != 127);
    if fit {
        assert forall|i: int| 0 <= i < bytes.len() implies crate::header_map::value_byte(
            #[trigger] bytes[i],
        ) by {}
    } else {
        let i = choose|i: int|
            #![trigger bytes[i]]
            0 <= i < bytes.len() && !(bytes[i] == 9 || (bytes[i] >= 32 && bytes[i] != 127));
        assert(!crate::header_map::value_byte(bytes[i]));
    }
}

/// A masked body is declared with its own length, and is what the mask makes
/// of the text of the body before: the one that it encodes, if it is UTF-8.
pub proof fn law_what_is_masked<F: Fn(&str) -> String>(
    mask: F,
    body: Seq<u8>,
    sent: Seq<u8>,
    masked: Option<&[u8]>,
)
    ensures
        masked is None ==> masked_length(masked) is None,
        masked matches Some(bytes) ==> masked_length(masked) == Some(bytes@.len() as u64),
        vstd::utf8::valid_utf8(body) ==> body_text(body) == vstd::utf8::decode_utf8(body),
        !vstd::utf8::valid_utf8(body) ==> body_text(body) == lossy_text(body),
        masks(mask, body, sent) ==> exists|text: &str, made: String|
            text@ == (if vstd::utf8::valid_utf8(body) {
                vstd::utf8::decode_utf8(body)
            } else {
                lossy_text(body)
            }) && #[trigger] call_ensures(mask, (text,), made) && sent == vstd::utf8::encode_utf8(
                made@,
            ),
{
}

} // verus!
