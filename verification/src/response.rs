//! The responses that the proxy gives: an upstream's own response passed on,
//! or one made here, for a request that no rule matches or that could not be
//! served upstream.

use vstd::prelude::*;
use vstd::string::*;
use crate::request::dump;
use crate::request::IncomingRequest;
use crate::request::RequestView;

verus! {

/// The status of the response to a request that no rule matches.
pub const STATUS_OK: u16 = 200;

/// The status of the response to a request that could not be served upstream.
pub const STATUS_BAD_GATEWAY: u16 = 502;

/// Why the proxy answered a request itself.
#[derive(Debug, Clone, Copy, PartialEq, Eq, Structural)]
pub enum Failure {
    /// No prefix of the table matches the request's path.
    RouteMiss,
    /// The exchange with the matched target did not complete.
    UpstreamUnreachable,
    /// The rewritten address is not one that can be sent to.
    MalformedRewrittenUri,
}

/// A response made here, over character sequences.
pub struct LocalView {
    pub failure: Failure,
    pub status: u16,
    pub body: Seq<char>,
}

/// A response that the proxy makes itself.
#[derive(Debug, Clone, PartialEq, Eq)]
pub struct LocalResponse {
    /// Why the proxy answers itself.
    pub failure: Failure,
    /// The HTTP status.
    pub status: u16,
    /// The body, as text.
    pub body: String,
}

impl View for LocalResponse {
    type V = LocalView;

    open spec fn view(&self) -> LocalView {
        LocalView { failure: self.failure, status: self.status, body: self.body@ }
    }
}

/// The response to a request that no rule matches: status 200, and the dump
/// of the request as the body.
pub open spec fn fallback_view(request: RequestView) -> LocalView {
    LocalView { failure: Failure::RouteMiss, status: 200, body: dump(request) }
}

/// The response to a request that could not be served upstream: status 502
/// and an empty body.
pub open spec fn bad_gateway_view(failure: Failure) -> LocalView {
    LocalView { failure, status: 502, body: Seq::empty() }
}

/// How the exchange with an upstream ended.
#[derive(Debug)]
pub enum Upstream<R> {
    /// The upstream answered.
    Answered(R),
    /// The connection was not made, or the exchange broke off.
    Failed,
    /// The upstream did not answer in time.
    TimedOut,
}

/// The response that goes back to the caller.
#[derive(Debug)]
pub enum ProxyResponse<R> {
    /// The upstream's own response, passed on as it came.
    Relayed(R),
    /// A response made here.
    Local(LocalResponse),
}

/// The response to a request that no rule matches: status 200, and the dump
/// of the request as the body.
pub fn fallback(request: &IncomingRequest) -> (r: LocalResponse)
    ensures
        r@ == fallback_view(request@),
{
    LocalResponse { failure: Failure::RouteMiss, status: STATUS_OK, body: request.describe() }
}

/// The response to a request that has a matching rule but could not be
/// served: status 502 and an empty body, whatever went wrong.
pub fn bad_gateway(failure: Failure) -> (r: LocalResponse)
    ensures
        r@ == bad_gateway_view(failure),
{
    LocalResponse { failure, status: STATUS_BAD_GATEWAY, body: String::new() }
}

/// Turns the end of the exchange with an upstream into the response for the
/// caller: an answer is passed on as it came; a failure or a missing answer
/// becomes status 502 with an empty body.
pub fn relay<R>(outcome: Upstream<R>) -> (r: ProxyResponse<R>)
    ensures
        match outcome {
            Upstream::Answered(response) => r == ProxyResponse::Relayed(response),
            Upstream::Failed | Upstream::TimedOut => r matches ProxyResponse::Local(local)
                && local@ == bad_gateway_view(Failure::UpstreamUnreachable),
        },
{
    match outcome {
        Upstream::Answered(response) => ProxyResponse::Relayed(response),
        Upstream::Failed => ProxyResponse::Local(bad_gateway(Failure::UpstreamUnreachable)),
        Upstream::TimedOut => ProxyResponse::Local(bad_gateway(Failure::UpstreamUnreachable)),
    }
}

} // verus!
