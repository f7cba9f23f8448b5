//! HTTP request and response types exchanged with a transport.
use vstd::prelude::*;

use crate::maps::{insert_all, sorted_insert, StringMap};

verus! {

/// Canonical SDK request passed to a transport implementation.
#[derive(Clone, Debug, PartialEq, Eq)]
pub struct SdkRequest {
    /// Raw request body bytes.
    pub body: Option<Vec<u8>>,
    /// Whether the request requires bearer authentication.
    pub requires_auth: bool,
    /// Header values to attach to the outgoing request.
    pub headers: StringMap,
    /// HTTP method to execute.
    pub method: String,
    /// Absolute or relative path for the request.
    pub path: String,
}

/// The body bytes of an optional body.
pub open spec fn body_view(body: Option<Vec<u8>>) -> Option<Seq<u8>> {
    match body {
        Some(b) => Some(b@),
        None => None,
    }
}

impl SdkRequest {
    /// Create a typed builder for constructing requests.
    pub fn builder(method: &str, path: &str) -> (b: SdkRequestBuilder<MethodSet, PathSet>)
        ensures
            b@ == (RequestParts {
                method: method@,
                path: path@,
                body: None,
                requires_auth: false,
                headers: Seq::empty(),
            }),
    {
        SdkRequestBuilder {
            method: method.to_owned(),
            path: path.to_owned(),
            body: None,
            requires_auth: false,
            headers: StringMap::new(),
            _state: std::marker::PhantomData,
        }
    }

    /// Construct a request with an HTTP method and request path.
    pub fn new(method: &str, path: &str) -> (r: Self)
        ensures
            r.method@ == method@,
            r.path@ == path@,
            r.body is None,
            !r.requires_auth,
            r.headers@ == Seq::<(Seq<char>, Seq<char>)>::empty(),
    {
        SdkRequest {
            body: None,
            requires_auth: false,
            headers: StringMap::new(),
            method: method.to_owned(),
            path: path.to_owned(),
        }
    }
}

/// TypeState marker: HTTP method has been set.
#[derive(Debug, Clone, Copy)]
pub struct MethodSet;

/// TypeState marker: path has been set.
#[derive(Debug, Clone, Copy)]
pub struct PathSet;

/// The parts of a request under construction.
pub struct RequestParts {
    pub method: Seq<char>,
    pub path: Seq<char>,
    pub body: Option<Seq<u8>>,
    pub requires_auth: bool,
    pub headers: Seq<(Seq<char>, Seq<char>)>,
}

/// Typed builder for [`SdkRequest`].
#[derive(Debug)]
pub struct SdkRequestBuilder<M, P> {
    method: String,
    path: String,
    body: Option<Vec<u8>>,
    requires_auth: bool,
    headers: StringMap,
    _state: std::marker::PhantomData<(M, P)>,
}

impl<M, P> View for SdkRequestBuilder<M, P> {
    type V = RequestParts;

    closed spec fn view(&self) -> RequestParts {
        RequestParts {
            method: self.method@,
            path: self.path@,
            body: body_view(self.body),
            requires_auth: self.requires_auth,
            headers: self.headers@,
        }
    }
}

impl SdkRequestBuilder<MethodSet, PathSet> {
    /// Build the request. Available only when both method and path are set.
    pub fn build(self) -> (r: SdkRequest)
        ensures
            r.method@ == self@.method,
            r.path@ == self@.path,
            body_view(r.body) == self@.body,
            r.requires_auth == self@.requires_auth,
            r.headers@ == self@.headers,
    {
        SdkRequest {
            method: self.method,
            path: self.path,
            body: self.body,
            requires_auth: self.requires_auth,
            headers: self.headers,
        }
    }
}

impl<M, P> SdkRequestBuilder<M, P> {
    /// Set the request body.
    pub fn body(self, body: Vec<u8>) -> (r: Self)
        ensures
            r@ == (RequestParts { body: Some(body@), ..self@ }),
    {
        SdkRequestBuilder { body: Some(body), ..self }
    }

    /// Mark the request as requiring authentication.
    pub fn auth_required(self, required: bool) -> (r: Self)
        ensures
            r@ == (RequestParts { requires_auth: required, ..self@ }),
    {
        SdkRequestBuilder { requires_auth: required, ..self }
    }

    /// Add a header to the request.
    pub fn header(self, name: &str, value: &str) -> (r: Self)
        ensures
            r@ == (RequestParts { headers: sorted_insert(self@.headers, name@, value@), ..self@ }),
    {
        let mut headers = self.headers;
        headers.insert(name.to_owned(), value.to_owned());
        SdkRequestBuilder { headers, ..self }
    }

    /// Add multiple headers to the request.
    pub fn headers(self, headers: StringMap) -> (r: Self)
        ensures
            r@ == (RequestParts { headers: insert_all(self@.headers, headers@), ..self@ }),
    {
        let mut all = self.headers;
        all.extend(headers);
        SdkRequestBuilder { headers: all, ..self }
    }
}

/// Canonical SDK response returned by a transport implementation.
#[derive(Clone, Debug, PartialEq, Eq)]
pub struct SdkResponse {
    /// Response body bytes.
    pub body: Vec<u8>,
    /// Response headers represented as UTF-8 strings when possible.
    pub headers: StringMap,
    /// HTTP status code.
    pub status: u16,
}

} // verus!
