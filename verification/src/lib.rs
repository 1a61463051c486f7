//! The decisions of an HTTP reverse proxy, verified.
//!
//! A request is screened against rate, framing, size and policy, given to a
//! backend by smooth weighted round-robin, and rewritten for it; what the
//! upstream did is settled with the backend's health record; the response is
//! cleaned, masked where that is called for, and sent back under the
//! identifier of its request. Each of these steps is a function here, on
//! plain values and on the header maps of `hyper`, with a contract that says
//! what it does for every input.
//!
//! What waits for the network is not here: it runs around this library, hands
//! it what has happened and does what it says.
use vstd::prelude::*;

pub mod admin;
pub mod balancer;
pub mod config;
pub mod error;
pub mod header_map;
pub mod headers;
pub mod metrics;
pub mod prometheus;
pub mod proxy;
pub mod round_robin;
pub mod sequence;
pub mod text;
pub mod tls;
pub mod upstream;
pub mod uri;

pub use admin::{AdminResponse, Occupancy};
pub use balancer::LoadBalancer;
pub use config::{RuntimeConfig, ValidatedUpstream};
pub use error::ProxyError;
pub use metrics::Metrics;
pub use sequence::RequestIds;
pub use upstream::{UpstreamPool, UpstreamState};
pub use uri::Uri;

verus! {

/// The result of an operation that may end the request.
pub type Result<T> = std::result::Result<T, ProxyError>;

} // verus!
