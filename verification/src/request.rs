//! Requests as the dispatcher sees them.

use vstd::prelude::*;

verus! {

/// `hyper::Method`, the method of a request. Nothing is known of a value but
/// whether it is the same as another: it is only carried along.
#[verifier::external_type_specification]
#[verifier::external_body]
pub struct ExMethod(hyper::Method);

/// `hyper::header::HeaderValue`, what `hyper::HeaderMap` holds by default.
/// Only carried along.
#[verifier::external_type_specification]
#[verifier::external_body]
pub struct ExHeaderValue(hyper::header::HeaderValue);

/// `hyper::HeaderMap`, the headers of a request. Only carried along.
#[verifier::external_type_specification]
#[verifier::external_body]
#[verifier::reject_recursive_types(T)]
pub struct ExHeaderMap<T>(hyper::HeaderMap<T>);

/// A request as it arrived. The body type is left open: the dispatcher moves
/// the body along without ever looking into it.
pub struct InboundRequest<B> {
    pub method: hyper::Method,
    /// The path of the request target, beginning with `/`, without a query.
    pub path: String,
    pub headers: hyper::HeaderMap,
    pub body: B,
}

/// A request on its way to a backend.
pub struct OutboundRequest<B> {
    pub method: hyper::Method,
    /// The address to send to: a text that the URI parser accepts.
    pub uri: String,
    pub headers: hyper::HeaderMap,
    pub body: B,
}

} // verus!
