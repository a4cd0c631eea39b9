//! What the router reads of an inbound request, and its textual dump.

use vstd::prelude::*;
use vstd::string::*;

verus! {

/// An inbound request over character sequences.
pub struct RequestView {
    pub method: Seq<char>,
    pub path: Seq<char>,
    pub query: Option<Seq<char>>,
    pub headers: Seq<(Seq<char>, Seq<char>)>,
}

/// The part of an inbound request that routing reads: the request line and
/// the headers, as text.
#[derive(Debug, Clone, PartialEq, Eq)]
pub struct IncomingRequest {
    /// The request method, such as `GET`.
    pub method: String,
    /// The path of the request's address, without the query string.
    pub path: String,
    /// The query string without its leading `?`, where the address has one.
    pub query: Option<String>,
    /// The headers as (name, value), in the order in which they arrived.
    pub headers: Vec<(String, String)>,
}

/// The headers of a list as character sequences, in the same order.
pub open spec fn headers_of(headers: Seq<(String, String)>) -> Seq<(Seq<char>, Seq<char>)> {
    Seq::new(headers.len(), |i: int| (headers[i].0@, headers[i].1@))
}

/// An optional string as an optional character sequence.
pub open spec fn text_of(s: Option<String>) -> Option<Seq<char>> {
    match s {
        Some(q) => Some(q@),
        None => None,
    }
}

impl View for IncomingRequest {
    type V = RequestView;

    open spec fn view(&self) -> RequestView {
        RequestView {
            method: self.method@,
            path: self.path@,
            query: text_of(self.query),
            headers: headers_of(self.headers@),
        }
    }
}

/// `base` with the query string appended: a `?` and the query, where there
/// is a query, and `base` unchanged where there is none.
pub open spec fn with_query(base: Seq<char>, query: Option<Seq<char>>) -> Seq<char> {
    match query {
        Some(q) => base + seq!['?'] + q,
        None => base,
    }
}

/// The address of a request as it was asked for: the path, then the query.
pub open spec fn uri_text(request: RequestView) -> Seq<char> {
    with_query(request.path, request.query)
}

/// One header in the dump: the name and the value, each in double quotes,
/// with a colon and a space between them.
pub open spec fn header_text(header: (Seq<char>, Seq<char>)) -> Seq<char> {
    "\""@ + header.0 + "\": \""@ + header.1 + "\""@
}

/// The headers in the dump, in their order, with a comma and a space between
/// one and the next.
pub open spec fn headers_text(headers: Seq<(Seq<char>, Seq<char>)>) -> Seq<char>
    decreases headers.len(),
{
    if headers.len() == 0 {
        Seq::empty()
    } else if headers.len() == 1 {
        header_text(headers[0])
    } else {
        headers_text(headers.drop_last()) + ", "@ + header_text(headers.last())
    }
}

/// The textual dump of a request: its method, its address and its headers.
pub open spec fn dump(request: RequestView) -> Seq<char> {
    "Request { method: "@ + request.method + ", uri: "@ + uri_text(request) + ", headers: {"@
        + headers_text(request.headers) + "} }"@
}

/// Whether `needle` occurs in `hay` as one unbroken run of characters.
pub open spec fn occurs_in(needle: Seq<char>, hay: Seq<char>) -> bool {
    exists|i: int|
        0 <= i && i + needle.len() <= hay.len() && #[trigger] hay.subrange(i, i + needle.len())
            == needle
}

/// A text occurs in whatever is built round it.
pub proof fn lemma_occurs_in_middle(before: Seq<char>, needle: Seq<char>, after: Seq<char>)
    ensures
        occurs_in(needle, before + needle + after),
{
    let hay = before + needle + after;
    let i = before.len() as int;
    assert(hay.subrange(i, i + needle.len()) =~= needle);
}

/// What occurs in a part occurs in the whole.
pub proof fn lemma_occurs_in_part(
    needle: Seq<char>,
    before: Seq<char>,
    part: Seq<char>,
    after: Seq<char>,
)
    requires
        occurs_in(needle, part),
    ensures
        occurs_in(needle, before + part + after),
{
    let hay = before + part + after;
    let i = choose|i: int|
        0 <= i && i + needle.len() <= part.len() && #[trigger] part.subrange(i, i + needle.len())
            == needle;
    let j = before.len() + i;
    assert(hay.subrange(j, j + needle.len()) =~= part.subrange(i, i + needle.len()));
}

/// The dump of the headers holds the name and the value of each of them.
pub proof fn lemma_headers_text_mentions(headers: Seq<(Seq<char>, Seq<char>)>, i: int)
    requires
        0 <= i < headers.len(),
    ensures
        occurs_in(headers[i].0, headers_text(headers)),
        occurs_in(headers[i].1, headers_text(headers)),
    decreases headers.len(),
{
    let none = Seq::<char>::empty();
    let last = headers.last();
    assert(occurs_in(last.0, header_text(last))) by {
        lemma_occurs_in_middle("\""@, last.0, "\": \""@ + last.1 + "\""@);
        assert("\""@ + last.0 + ("\": \""@ + last.1 + "\""@) =~= header_text(last));
    }
    assert(occurs_in(last.1, header_text(last))) by {
        lemma_occurs_in_middle("\""@ + last.0 + "\": \""@, last.1, "\""@);
    }
    if headers.len() == 1 {
    } else if i == headers.len() - 1 {
        let head = headers_text(headers.drop_last()) + ", "@;
        lemma_occurs_in_part(last.0, head, header_text(last), none);
        lemma_occurs_in_part(last.1, head, header_text(last), none);
        assert(head + header_text(last) + none =~= headers_text(headers));
    } else {
        let front = headers.drop_last();
        lemma_headers_text_mentions(front, i);
        assert(front[i] == headers[i]);
        let tail = ", "@ + header_text(last);
        lemma_occurs_in_part(headers[i].0, none, headers_text(front), tail);
        lemma_occurs_in_part(headers[i].1, none, headers_text(front), tail);
        assert(none + headers_text(front) + tail =~= headers_text(headers));
    }
}

/// The dump of a request holds its method, its address as it was asked for,
/// and the name and the value of each of its headers.
pub proof fn lemma_dump_mentions_request(request: RequestView)
    ensures
        occurs_in(request.method, dump(request)),
        occurs_in(uri_text(request), dump(request)),
        forall|i: int|
            0 <= i < request.headers.len() ==> occurs_in(
                (#[trigger] request.headers[i]).0,
                dump(request),
            ) && occurs_in(request.headers[i].1, dump(request)),
{
    let a = "Request { method: "@;
    let b = ", uri: "@;
    let c = ", headers: {"@;
    let d = "} }"@;
    let uri = uri_text(request);
    let hs = headers_text(request.headers);
    assert(occurs_in(request.method, dump(request))) by {
        lemma_occurs_in_middle(a, request.method, b + uri + c + hs + d);
        assert(a + request.method + (b + uri + c + hs + d) =~= dump(request));
    }
    assert(occurs_in(uri, dump(request))) by {
        lemma_occurs_in_middle(a + request.method + b, uri, c + hs + d);
        assert(a + request.method + b + uri + (c + hs + d) =~= dump(request));
    }
    assert forall|i: int| 0 <= i < request.headers.len() implies occurs_in(
        (#[trigger] request.headers[i]).0,
        dump(request),
    ) && occurs_in(request.headers[i].1, dump(request)) by {
        lemma_headers_text_mentions(request.headers, i);
        let front = a + request.method + b + uri + c;
        lemma_occurs_in_part(request.headers[i].0, front, hs, d);
        lemma_occurs_in_part(request.headers[i].1, front, hs, d);
    }
}

/// Appends the query string to `base`: a `?` and the query, where there is one.
pub fn append_query(base: String, query: &Option<String>) -> (r: String)
    ensures
        r@ == with_query(base@, text_of(*query)),
{
    match query {
        Some(q) => {
            proof {
                reveal_strlit("?");
                assert("?"@ =~= seq!['?']);
            }
            base.concat("?").concat(q.as_str())
        },
        None => base,
    }
}

impl IncomingRequest {
    /// The address as it was asked for: the path, then the query string.
    pub fn uri(&self) -> (r: String)
        ensures
            r@ == uri_text(self@),
    {
        append_query(self.path.clone(), &self.query)
    }

    /// The textual dump of the request: its method, its address and its headers.
    pub fn describe(&self) -> (r: String)
        ensures
            r@ == dump(self@),
    {
        let mut out = String::from_str("Request { method: ");
        out.append(self.method.as_str());
        out.append(", uri: ");
        out.append(self.uri().as_str());
        out.append(", headers: {");
        let ghost front = out@;
        let ghost headers = self@.headers;
        let mut i: usize = 0;
        while i < self.headers.len()
            invariant
                i <= self.headers@.len(),
                headers == headers_of(self.headers@),
                out@ == front + headers_text(headers.take(i as int)),
            decreases self.headers@.len() - i,
        {
            let ghost so_far = headers.take(i as int);
            let ghost now = headers.take(i + 1);
            proof {
                assert(now.drop_last() =~= so_far);
                assert(now.last() == headers[i as int]);
            }
            if i > 0 {
                out.append(", ");
            }
            let name = &self.headers[i].0;
            let value = &self.headers[i].1;
            out.append("\"");
            out.append(name.as_str());
            out.append("\": \"");
            out.append(value.as_str());
            out.append("\"");
            proof {
                if i == 0 {
                    assert(out@ =~= front + header_text(headers[0]));
                } else {
                    assert(out@ =~= front + (headers_text(so_far) + ", "@ + header_text(
                        headers[i as int],
                    )));
                }
            }
            i += 1;
        }
        proof {
            assert(headers.take(i as int) =~= headers);
        }
        out.append("} }");
        out
    }
}

} // verus!
