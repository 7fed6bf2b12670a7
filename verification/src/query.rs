//! Requests to an OSCQuery server, and its responses.
use vstd::prelude::*;

verus! {

/// A request to an OSCQuery server.
#[derive(Debug)]
pub struct OSCQueryRequest {
    /// The OSC path that is asked for.
    pub path: String,
    /// What is asked of it, such as `TYPE` or `HOST_INFO`.
    pub query: Option<String>,
}

/// A response of an OSCQuery server.
#[derive(Debug)]
pub struct OSCQueryResponse {
    /// The HTTP status code.
    pub status: u16,
    /// The body.
    pub body: String,
}

/// What a request is.
pub struct RequestView {
    pub path: Seq<char>,
    pub query: Option<Seq<char>>,
}

/// What a response is.
pub struct ResponseView {
    pub status: u16,
    pub body: Seq<char>,
}

impl OSCQueryRequest {
    /// What this request is.
    pub open spec fn view(&self) -> RequestView {
        RequestView {
            path: self.path@,
            query: match self.query {
                Some(query) => Some(query@),
                None => None,
            },
        }
    }
}

impl OSCQueryResponse {
    /// What this response is.
    pub open spec fn view(&self) -> ResponseView {
        ResponseView { status: self.status, body: self.body@ }
    }
}

impl Clone for OSCQueryRequest {
    fn clone(&self) -> (r: OSCQueryRequest)
        ensures
            r@ == self@,
    {
        OSCQueryRequest {
            path: self.path.clone(),
            query: match &self.query {
                Some(query) => Some(query.clone()),
                None => None,
            },
        }
    }
}

impl Clone for OSCQueryResponse {
    fn clone(&self) -> (r: OSCQueryResponse)
        ensures
            r@ == self@,
    {
        OSCQueryResponse { status: self.status, body: self.body.clone() }
    }
}

} // verus!
