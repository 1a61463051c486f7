//! The reasons for which the proxy does not answer with an upstream response.
use std::time::Duration;
use vstd::prelude::*;

verus! {

#[derive(Debug, PartialEq, Eq)]
pub enum ProxyError {
    /// The client has used up its rate allowance.
    RateLimited { retry_after_ms: u64 },
    /// The request frames its body in two ways at once.
    RequestSmuggling,
    /// The request body is larger than the configured limit.
    BodyTooLarge { limit: u64 },
    /// The request carries a blocked header.
    BlockedHeader(String),
    /// The request carries a blocked query parameter.
    BlockedParam(String),
    /// No backend is eligible.
    NoHealthyUpstream,
    /// The selected backend cannot be addressed.
    InvalidUpstream(String),
    /// The upstream connection failed.
    Upstream(String),
    /// The upstream did not respond in time.
    Timeout(Duration),
    /// The TLS setup failed.
    Tls(String),
    /// The proxy itself failed.
    Internal(String),
}

/// A [`ProxyError`] with its texts as sequences of characters.
pub enum ErrorView {
    RateLimited { retry_after_ms: u64 },
    RequestSmuggling,
    BodyTooLarge { limit: u64 },
    BlockedHeader(Seq<char>),
    BlockedParam(Seq<char>),
    NoHealthyUpstream,
    InvalidUpstream(Seq<char>),
    Upstream(Seq<char>),
    Timeout(Duration),
    Tls(Seq<char>),
    Internal(Seq<char>),
}

impl View for ProxyError {
    type V = ErrorView;

    open spec fn view(&self) -> ErrorView {
        match self {
            ProxyError::RateLimited { retry_after_ms } => ErrorView::RateLimited {
                retry_after_ms: *retry_after_ms,
            },
            ProxyError::RequestSmuggling => ErrorView::RequestSmuggling,
            ProxyError::BodyTooLarge { limit } => ErrorView::BodyTooLarge { limit: *limit },
            ProxyError::BlockedHeader(name) => ErrorView::BlockedHeader(name@),
            ProxyError::BlockedParam(key) => ErrorView::BlockedParam(key@),
            ProxyError::NoHealthyUpstream => ErrorView::NoHealthyUpstream,
            ProxyError::InvalidUpstream(reason) => ErrorView::InvalidUpstream(reason@),
            ProxyError::Upstream(reason) => ErrorView::Upstream(reason@),
            ProxyError::Timeout(after) => ErrorView::Timeout(*after),
            ProxyError::Tls(reason) => ErrorView::Tls(reason@),
            ProxyError::Internal(reason) => ErrorView::Internal(reason@),
        }
    }
}

impl ErrorView {
    /// The status with which the proxy refuses a request on its own account:
    /// 429 for a client over its rate, 400 for ambiguous framing, 413 for an
    /// oversized body, 403 for a policy violation and 503 without a backend.
    /// The other errors are failures, not refusals.
    pub open spec fn refusal(self) -> Option<u16> {
        match self {
            ErrorView::RateLimited { .. } => Some(429),
            ErrorView::RequestSmuggling => Some(400),
            ErrorView::BodyTooLarge { .. } => Some(413),
            ErrorView::BlockedHeader(_) => Some(403),
            ErrorView::BlockedParam(_) => Some(403),
            ErrorView::NoHealthyUpstream => Some(503),
            _ => None,
        }
    }
}

impl ProxyError {
    /// Returns the status of a refusal, or nothing for a failure.
    pub fn refusal_status(&self) -> (status: Option<u16>)
        ensures
            status == self@.refusal(),
    {
        match self {
            ProxyError::RateLimited { .. } => Some(429),
            ProxyError::RequestSmuggling => Some(400),
            ProxyError::BodyTooLarge { .. } => Some(413),
            ProxyError::BlockedHeader(_) => Some(403),
            ProxyError::BlockedParam(_) => Some(403),
            ProxyError::NoHealthyUpstream => Some(503),
            _ => None,
        }
    }
}

/// A client over its rate is refused with 429, ambiguous framing with 400, an
/// oversized body with 413, a blocked header or parameter with 403, and a
/// request for which there is no backend with 503. A failure is no refusal.
pub proof fn law_status_of_each_refusal(
    retry_after_ms: u64,
    limit: u64,
    text: Seq<char>,
    after: Duration,
)
    ensures
        (ErrorView::RateLimited { retry_after_ms }).refusal() == Some(429u16),
        ErrorView::RequestSmuggling.refusal() == Some(400u16),
        (ErrorView::BodyTooLarge { limit }).refusal() == Some(413u16),
        ErrorView::BlockedHeader(text).refusal() == Some(403u16),
        ErrorView::BlockedParam(text).refusal() == Some(403u16),
        ErrorView::NoHealthyUpstream.refusal() == Some(503u16),
        ErrorView::InvalidUpstream(text).refusal() is None,
        ErrorView::Upstream(text).refusal() is None,
        ErrorView::Timeout(after).refusal() is None,
        ErrorView::Tls(text).refusal() is None,
        ErrorView::Internal(text).refusal() is None,
{
}

/// An error is of the kind that it is, and keeps what it says.
pub proof fn law_errors_keep_what_they_say(error: ProxyError)
    ensures
        match error {
            ProxyError::RateLimited { retry_after_ms: ms } => error@ matches ErrorView::RateLimited {
                retry_after_ms,
            } && retry_after_ms == ms,
            ProxyError::RequestSmuggling => error@ is RequestSmuggling,
            ProxyError::BodyTooLarge { limit: n } => error@ matches ErrorView::BodyTooLarge { limit }
                && limit == n,
            ProxyError::BlockedHeader(s) => error@ matches ErrorView::BlockedHeader(t) && t == s@,
            ProxyError::BlockedParam(s) => error@ matches ErrorView::BlockedParam(t) && t == s@,
            ProxyError::NoHealthyUpstream => error@ is NoHealthyUpstream,
            ProxyError::InvalidUpstream(s) => error@ matches ErrorView::InvalidUpstream(t) && t
                == s@,
            ProxyError::Upstream(s) => error@ matches ErrorView::Upstream(t) && t == s@,
            ProxyError::Timeout(d) => error@ matches ErrorView::Timeout(e) && e == d,
            ProxyError::Tls(s) => error@ matches ErrorView::Tls(t) && t == s@,
            ProxyError::Internal(s) => error@ matches ErrorView::Internal(t) && t == s@,
        },
{
}

} // verus!
