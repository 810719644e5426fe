//! Error kinds, their client-facing status codes and sanitised messages.
//!
//! Every per-request failure is converted at the proxy boundary into a
//! fixed status code and a generic message; the detail strings carried
//! by the variants are for server-side logs only and never reach the
//! client.

use vstd::prelude::*;
use vstd::string::*;

verus! {

/// Configuration-related failures.
#[derive(Debug)]
pub enum ConfigError {
    NotFound(String),
    Parse(String),
    Invalid(String),
    SecretNotFound(String),
    SecretsDirectoryNotFound(String),
}

/// Per-request proxying failures.
#[derive(Debug)]
pub enum ProxyError {
    ServerStart(String),
    UnknownService(String),
    UpstreamUnavailable(String),
    UpstreamTimeout(String),
    UpstreamRequest(String),
    InvalidToken(String),
    BadRequest(String),
}

/// Sandbox launch failures.
#[derive(Debug)]
pub enum SandboxError {
    NotAvailable,
    ProfileCreation(String),
    Apply(String),
    Exec(String),
    LandlockNotSupported,
}

/// The HTTP status answered to the client for each proxy error kind.
pub open spec fn proxy_status_spec(e: ProxyError) -> u16 {
    match e {
        ProxyError::UnknownService(_) => 404,
        ProxyError::BadRequest(_) => 400,
        ProxyError::UpstreamUnavailable(_) => 502,
        ProxyError::UpstreamTimeout(_) => 504,
        ProxyError::UpstreamRequest(_) => 502,
        ProxyError::InvalidToken(_) => 500,
        ProxyError::ServerStart(_) => 500,
    }
}

/// The generic client-facing message for each proxy error kind.  It
/// depends on the kind alone, never on the detail the variant carries.
pub open spec fn proxy_message_spec(e: ProxyError) -> Seq<char> {
    match e {
        ProxyError::UnknownService(_) => "Unknown service"@,
        ProxyError::BadRequest(_) => "Invalid request"@,
        ProxyError::UpstreamUnavailable(_) => "Upstream unavailable"@,
        ProxyError::UpstreamTimeout(_) => "Upstream timeout"@,
        ProxyError::UpstreamRequest(_) => "Upstream error"@,
        ProxyError::InvalidToken(_) => "Configuration error"@,
        ProxyError::ServerStart(_) => "Internal server error"@,
    }
}

/// The sanitised JSON body answered to the client for each error kind.
pub open spec fn proxy_body_spec(e: ProxyError) -> Seq<char> {
    "{\"error\": \""@ + proxy_message_spec(e) + "\"}"@
}

impl ProxyError {
    /// Status code of the client response for this error.
    pub fn status_code(&self) -> (code: u16)
        ensures
            code == proxy_status_spec(*self),
    {
        match self {
            ProxyError::UnknownService(_) => 404,
            ProxyError::BadRequest(_) => 400,
            ProxyError::UpstreamUnavailable(_) => 502,
            ProxyError::UpstreamTimeout(_) => 504,
            ProxyError::UpstreamRequest(_) => 502,
            ProxyError::InvalidToken(_) => 500,
            ProxyError::ServerStart(_) => 500,
        }
    }

    /// Client-safe error message; a fixed literal per kind, so internal
    /// detail and secret values cannot leak through it.
    pub fn client_message(&self) -> (m: &str)
        ensures
            m@ == proxy_message_spec(*self),
    {
        match self {
            ProxyError::UnknownService(_) => "Unknown service",
            ProxyError::BadRequest(_) => "Invalid request",
            ProxyError::UpstreamUnavailable(_) => "Upstream unavailable",
            ProxyError::UpstreamTimeout(_) => "Upstream timeout",
            ProxyError::UpstreamRequest(_) => "Upstream error",
            ProxyError::InvalidToken(_) => "Configuration error",
            ProxyError::ServerStart(_) => "Internal server error",
        }
    }

    /// The complete sanitised JSON body for the client response.
    pub fn client_body(&self) -> (b: String)
        ensures
            b@ == proxy_body_spec(*self),
    {
        let mut b = String::new();
        b.append("{\"error\": \"");
        b.append(self.client_message());
        b.append("\"}");
        b
    }
}

/// Law: a request that matches no service is answered 404 with the
/// fixed unknown-service body; the body is one constant for every
/// requested path, so the path never appears in it.
pub proof fn lemma_unknown_service_response(detail: String)
    ensures
        proxy_status_spec(ProxyError::UnknownService(detail)) == 404,
        proxy_body_spec(ProxyError::UnknownService(detail))
            == "{\"error\": \"Unknown service\"}"@,
{
    reveal_strlit("{\"error\": \"");
    reveal_strlit("Unknown service");
    reveal_strlit("\"}");
    reveal_strlit("{\"error\": \"Unknown service\"}");
    assert("{\"error\": \""@ + "Unknown service"@ + "\"}"@
        =~= "{\"error\": \"Unknown service\"}"@);
}

/// Sorts a transport-level upstream failure into the error kind that
/// fixes the client status: timeouts, connection failures, and all
/// remaining transport or protocol errors.
pub fn classify_transport_error(
    timed_out: bool,
    connect_failed: bool,
    detail: String,
) -> (e: ProxyError)
    ensures
        timed_out ==> e == ProxyError::UpstreamTimeout(detail),
        !timed_out && connect_failed ==> e == ProxyError::UpstreamUnavailable(detail),
        !timed_out && !connect_failed ==> e == ProxyError::UpstreamRequest(detail),
{
    if timed_out {
        ProxyError::UpstreamTimeout(detail)
    } else if connect_failed {
        ProxyError::UpstreamUnavailable(detail)
    } else {
        ProxyError::UpstreamRequest(detail)
    }
}

} // verus!
