//! The decision taken for each request: forward it, or answer it here.
//!
//! The caller owns the network. It hands each request to [`dispatch`], sends
//! what a [`Decision::Forward`] names, and hands the end of that exchange to
//! [`crate::response::relay`].

use vstd::prelude::*;
use vstd::string::*;
use crate::matcher::lemma_rewritten_path;
use crate::matcher::lemma_winner_iff_some_match;
use crate::matcher::match_route;
use crate::matcher::is_match;
use crate::matcher::resolve;
use crate::matcher::winning_prefix;
use crate::matcher::MatchResult;
use crate::matcher::MatchView;
use crate::request::append_query;
use crate::request::dump;
use crate::request::lemma_dump_mentions_request;
use crate::request::occurs_in;
use crate::request::uri_text;
use crate::request::with_query;
use crate::request::IncomingRequest;
use crate::request::RequestView;
use crate::response::bad_gateway;
use crate::response::bad_gateway_view;
use crate::response::fallback;
use crate::response::fallback_view;
use crate::response::Failure;
use crate::response::LocalResponse;
use crate::response::LocalView;
use crate::table::RoutingTable;
use crate::uri::parse_uri;
use crate::uri::uri_accepts;

verus! {

/// A request to send upstream.
#[derive(Debug)]
pub struct Forward {
    /// The upstream base URL of the rule that matched.
    pub target: String,
    /// The rewritten address as text.
    pub uri_text: String,
    /// The rewritten address as `hyper` parsed it.
    pub uri: hyper::Uri,
}

/// What is to be done with a request.
#[derive(Debug)]
pub enum Decision {
    /// Send it upstream.
    Forward(Forward),
    /// Answer it here.
    Respond(LocalResponse),
}

/// A decision over character sequences.
pub enum DecisionView {
    Forward { target: Seq<char>, uri_text: Seq<char> },
    Respond(LocalView),
}

impl View for Decision {
    type V = DecisionView;

    open spec fn view(&self) -> DecisionView {
        match self {
            Decision::Forward(forward) => DecisionView::Forward {
                target: forward.target@,
                uri_text: forward.uri_text@,
            },
            Decision::Respond(response) => DecisionView::Respond(response@),
        }
    }
}

/// The decision for a matched request, once it is known whether its
/// rewritten address can be sent to.
pub open spec fn forward_or_refuse(
    target: Seq<char>,
    uri_text: Seq<char>,
    accepted: bool,
) -> DecisionView {
    if accepted {
        DecisionView::Forward { target, uri_text }
    } else {
        DecisionView::Respond(bad_gateway_view(Failure::MalformedRewrittenUri))
    }
}

/// The decision for a request: the fallback where no rule matches;
/// otherwise the winner's target and the rewritten address with the
/// request's query string, to be forwarded where that address can be sent
/// to, and refused where it cannot.
pub open spec fn decide(table: Map<Seq<char>, Seq<char>>, request: RequestView) -> DecisionView {
    match resolve(table, request.path) {
        MatchView::Matched { target, rewritten_path } => {
            let text = with_query(rewritten_path, request.query);
            forward_or_refuse(target, text, uri_accepts(text))
        },
        MatchView::NoMatch => DecisionView::Respond(fallback_view(request)),
    }
}

/// Decides for a matched request from what the address parser said of its
/// rewritten address: forward with the parsed address, or refuse with
/// status 502 where the parser gave an error.
pub fn conclude(
    target: String,
    uri_text: String,
    parsed: Result<hyper::Uri, hyper::http::uri::InvalidUri>,
) -> (d: Decision)
    ensures
        d@ == forward_or_refuse(target@, uri_text@, parsed is Ok),
        d matches Decision::Forward(forward) ==> parsed == Ok::<
            hyper::Uri,
            hyper::http::uri::InvalidUri,
        >(forward.uri),
{
    match parsed {
        Ok(uri) => Decision::Forward(Forward { target, uri_text, uri }),
        Err(_) => Decision::Respond(bad_gateway(Failure::MalformedRewrittenUri)),
    }
}

/// Decides what is to be done with a request.
pub fn dispatch(request: &IncomingRequest, table: &RoutingTable) -> (d: Decision)
    ensures
        d@ == decide(table@, request@),
{
    match match_route(request.path.as_str(), table) {
        MatchResult::Matched { target, rewritten_path } => {
            let uri_text = append_query(rewritten_path, &request.query);
            let parsed = parse_uri(uri_text.as_str());
            conclude(target, uri_text, parsed)
        },
        MatchResult::NoMatch => Decision::Respond(fallback(request)),
    }
}

/// A request whose path starts with a prefix of the table is never answered
/// with the fallback. Its rewritten address is the winner's target, then what
/// follows the winner in the path, then the query string as it came; it is
/// forwarded there, or refused with status 502 and an empty body.
pub proof fn lemma_matched_request(table: Map<Seq<char>, Seq<char>>, request: RequestView)
    requires
        exists|k: Seq<char>| is_match(table, request.path, k),
    ensures
        winning_prefix(table, request.path) is Some,
        ({
            let k = winning_prefix(table, request.path)->Some_0;
            let address = with_query(
                table[k] + request.path.skip(k.len() as int),
                request.query,
            );
            decide(table, request) == if uri_accepts(address) {
                DecisionView::Forward { target: table[k], uri_text: address }
            } else {
                DecisionView::Respond(
                    LocalView {
                        failure: Failure::MalformedRewrittenUri,
                        status: 502,
                        body: Seq::empty(),
                    },
                )
            }
        }),
{
    lemma_winner_iff_some_match(table, request.path);
    lemma_rewritten_path(table, request.path);
}

/// A request whose path starts with no prefix of the table is answered here
/// with status 200, and the body holds the request's method, its address as
/// it was asked for, and every header's name and value.
pub proof fn lemma_unmatched_request(table: Map<Seq<char>, Seq<char>>, request: RequestView)
    requires
        forall|k: Seq<char>| !is_match(table, request.path, k),
    ensures
        decide(table, request) == DecisionView::Respond(
            LocalView { failure: Failure::RouteMiss, status: 200, body: dump(request) },
        ),
        occurs_in(request.method, dump(request)),
        occurs_in(uri_text(request), dump(request)),
        forall|i: int|
            0 <= i < request.headers.len() ==> occurs_in(
                (#[trigger] request.headers[i]).0,
                dump(request),
            ) && occurs_in(request.headers[i].1, dump(request)),
{
    lemma_winner_iff_some_match(table, request.path);
    lemma_dump_mentions_request(request);
}

} // verus!
