//! The forwarding decisions: which request goes where, and what the proxy
//! answers itself when it cannot forward.
use vstd::prelude::*;
use crate::config::ProxyMode;
use crate::extract::{destination, get_destination, RequestHead};
use crate::routes::RouteTable;
use crate::target::{parse_uri, uri_parse};
use crate::text::chars_of;

verus! {

/// A failure the proxy answers itself.
#[derive(Clone, Copy, Debug, PartialEq, Eq, Structural)]
pub enum ProxyError {
    /// No route matches the request.
    NotFound,
    /// The upstream URI is malformed, or the upstream could not be reached.
    BadGateway,
    /// The outbound request could not be built.
    InternalError,
}

pub open spec fn status_of(e: ProxyError) -> u16 {
    match e {
        ProxyError::NotFound => 404,
        ProxyError::BadGateway => 502,
        ProxyError::InternalError => 500,
    }
}

pub open spec fn body_of(e: ProxyError) -> Seq<char> {
    match e {
        ProxyError::NotFound => "Local Http Proxy: Route Not Found"@,
        ProxyError::BadGateway => "Local Http Proxy: Bad Gateway"@,
        ProxyError::InternalError => "Local Http Proxy: Internal Error"@,
    }
}

impl ProxyError {
    /// The HTTP status code of the answer.
    pub fn status(&self) -> (r: u16)
        ensures
            r == status_of(*self),
    {
        match self {
            ProxyError::NotFound => 404,
            ProxyError::BadGateway => 502,
            ProxyError::InternalError => 500,
        }
    }

    /// The plain-text body of the answer, naming the proxy as its source.
    pub fn body(&self) -> (r: &'static str)
        ensures
            r@ == body_of(*self),
    {
        match self {
            ProxyError::NotFound => "Local Http Proxy: Route Not Found",
            ProxyError::BadGateway => "Local Http Proxy: Bad Gateway",
            ProxyError::InternalError => "Local Http Proxy: Internal Error",
        }
    }
}

/// The upstream URI for a destination: base and path joined, when that parses.
pub fn build_upstream_uri(host: &str, path: &str) -> (r: Option<String>)
    ensures
        r is Some <==> uri_parse(host@ + path@) is Some,
        r is Some ==> r->0@ == host@ + path@,
{
    let mut uri = String::from_str(host);
    uri.append(path);
    match parse_uri(uri.as_str()) {
        Some(_) => Some(uri),
        None => None,
    }
}

/// Where a request is forwarded: the upstream URI, or the answer the proxy
/// gives itself (no route: not found; a URI that does not parse: bad gateway).
pub fn plan_request(req: &RequestHead, mode: &ProxyMode, routes: &RouteTable) -> (r: Result<
    String,
    ProxyError,
>)
    requires
        routes.wf(),
    ensures
        destination(req@, *mode, routes@) is None ==> r == Err::<String, ProxyError>(
            ProxyError::NotFound,
        ),
        destination(req@, *mode, routes@) is Some ==> {
            let d = destination(req@, *mode, routes@)->0;
            if uri_parse(d.0 + d.1) is Some {
                r is Ok && r->Ok_0@ == d.0 + d.1
            } else {
                r == Err::<String, ProxyError>(ProxyError::BadGateway)
            }
        },
{
    let dest = match get_destination(req, mode, routes) {
        Some(d) => d,
        None => return Err(ProxyError::NotFound),
    };
    match build_upstream_uri(dest.host.as_str(), dest.path.as_str()) {
        Some(uri) => Ok(uri),
        None => Err(ProxyError::BadGateway),
    }
}

/// Whether an inbound header goes on to the upstream: all but `Host`, whose
/// value belongs to the inbound connection. Names are compared as the HTTP
/// library hands them out, lower-cased.
pub fn keep_header(name: &str) -> (r: bool)
    ensures
        r <==> name@ != "host"@,
{
    let v = chars_of(name);
    proof {
        reveal_strlit("host");
    }
    if v.len() != 4 {
        return true;
    }
    let same = v[0] == 'h' && v[1] == 'o' && v[2] == 's' && v[3] == 't';
    if same {
        assert(v@ =~= "host"@);
    }
    !same
}

} // verus!
