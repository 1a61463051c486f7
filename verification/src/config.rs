//! The configuration that the request path reads.
use crate::uri::Uri;
use hyper::header::HeaderName;
use std::time::Duration;
use vstd::prelude::*;

verus! {

/// One upstream of the configuration.
#[derive(Debug)]
pub struct ValidatedUpstream {
    /// Where the backend is reached.
    pub uri: Uri,
    /// Its share of the traffic, relative to the other upstreams.
    pub weight: u32,
}

/// The settings of the request path, fixed at startup.
#[derive(Debug)]
pub struct RuntimeConfig {
    /// Headers that no request may carry.
    pub blocked_headers: Vec<HeaderName>,
    /// Query parameters that no request may carry.
    pub blocked_params: Vec<String>,
    /// Headers that no response may carry.
    pub strip_response_headers: Vec<HeaderName>,
    /// The largest request body in bytes.
    pub max_body_size: u64,
    /// Whether masking rules are configured.
    pub masking: bool,
    /// The largest response body in bytes that is masked.
    pub mask_max_body_size: u64,
    /// Whether forwarding headers of the client are kept.
    pub trust_forwarded_headers: bool,
    /// Consecutive failures that eject a backend.
    pub failure_threshold: u32,
    /// Consecutive successes that readmit a backend.
    pub healthy_threshold: u32,
    /// How long an upstream may take to respond.
    pub request_timeout: Duration,
    /// How long a TCP connection to an upstream may take.
    pub connect_timeout: Duration,
    /// How long an idle upstream connection is kept.
    pub pool_idle_timeout: Duration,
    /// How many idle connections are kept per upstream.
    pub pool_max_idle_per_host: usize,
}

} // verus!
