//! A request that was received in full.

use crate::headers::{HeaderView, Headers};
use crate::request::request_body::{RequestBody, RequestBodyView};
use crate::request::request_builder::{HttpMethods, HttpMethodsView, HttpVersion};
use crate::request::request_uri::RequestUri;
use vstd::prelude::*;

verus! {

#[derive(Debug)]
pub struct Request {
    method: HttpMethods,
    uri: RequestUri,
    http_version: HttpVersion,
    body: Option<RequestBody>,
    headers: Headers,
}

/// A request as a mathematical value.
pub struct RequestView {
    pub method: HttpMethodsView,
    pub target: Seq<char>,
    pub version: HttpVersion,
    pub headers: Map<Seq<char>, HeaderView>,
    pub body: Option<RequestBodyView>,
}

impl View for Request {
    type V = RequestView;

    closed spec fn view(&self) -> RequestView {
        RequestView {
            method: self.method@,
            target: self.uri@,
            version: self.http_version,
            headers: self.headers@,
            body: match self.body {
                Some(body) => Some(body@),
                None => None,
            },
        }
    }
}

impl Request {
    /// The header store and the rope of the body are well formed.
    pub closed spec fn wf(&self) -> bool {
        &&& self.headers.wf()
        &&& self.body matches Some(body) ==> body.wf()
    }

    pub fn new(
        method: HttpMethods,
        uri: RequestUri,
        http_version: HttpVersion,
        headers: Headers,
        body: Option<RequestBody>,
    ) -> (r: Request)
        requires
            headers.wf(),
            body matches Some(b) ==> b.wf(),
        ensures
            r.wf(),
            r@ == (RequestView {
                method: method@,
                target: uri@,
                version: http_version,
                headers: headers@,
                body: match body {
                    Some(b) => Some(b@),
                    None => None,
                },
            }),
    {
        Request { method, uri, http_version, body, headers }
    }

    pub fn method(&self) -> (r: &HttpMethods)
        ensures
            r@ == self@.method,
    {
        &self.method
    }

    pub fn uri(&self) -> (r: &RequestUri)
        ensures
            r@ == self@.target,
    {
        &self.uri
    }

    pub fn http_version(&self) -> (r: &HttpVersion)
        ensures
            *r == self@.version,
    {
        &self.http_version
    }

    pub fn headers(&self) -> (r: &Headers)
        requires
            self.wf(),
        ensures
            r.wf(),
            r@ == self@.headers,
    {
        &self.headers
    }

    pub fn body(&self) -> (r: &Option<RequestBody>)
        requires
            self.wf(),
        ensures
            match *r {
                Some(body) => body.wf() && self@.body == Some(body@),
                None => self@.body is None,
            },
    {
        &self.body
    }
}

} // verus!
