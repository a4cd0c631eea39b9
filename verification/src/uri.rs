//! The address parser of `hyper`, as far as the router relies on it.
//!
//! Nothing in this file is proved. The router only needs to know whether
//! `hyper` takes a rewritten address, and to carry the parsed value to the
//! caller that sends the request.

use vstd::prelude::*;

verus! {

/// `hyper::Uri`, a parsed address. Its contents are not visible here; values
/// are only carried through.
#[verifier::external_type_specification]
#[verifier::external_body]
pub struct ExUri(hyper::Uri);

/// `hyper::http::uri::InvalidUri`, the error of `hyper`'s address parser.
#[verifier::external_type_specification]
#[verifier::external_body]
pub struct ExInvalidUri(hyper::http::uri::InvalidUri);

/// Whether `hyper`'s address parser takes this text. The parser reads the
/// text alone, so the answer is the same wherever and whenever it is asked.
pub uninterp spec fn uri_accepts(text: Seq<char>) -> bool;

/// Calls `<hyper::Uri as std::str::FromStr>::from_str`. The parser returns
/// for every text, with a parsed address or with an error; the contract
/// only gives the outcome its name.
#[verifier::external_body]
pub(crate) fn parse_uri(text: &str) -> (r: Result<hyper::Uri, hyper::http::uri::InvalidUri>)
    ensures
        r is Ok == uri_accepts(text@),
{
    text.parse::<hyper::Uri>()
}

} // verus!
