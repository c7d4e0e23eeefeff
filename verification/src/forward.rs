//! Forwarding one request: the pending exchange and what becomes of it.

use vstd::prelude::*;
use crate::error::ProxyError;
use crate::request::OutboundRequest;

verus! {

/// A request that is about to be sent to a backend.
pub struct ProxyResponseFuture<B> {
    request: OutboundRequest<B>,
}

impl<B> View for ProxyResponseFuture<B> {
    type V = OutboundRequest<B>;

    /// The request to send.
    closed spec fn view(&self) -> OutboundRequest<B> {
        self.request
    }
}

impl<B> ProxyResponseFuture<B> {
    /// A pending exchange that sends `request`.
    pub fn new(request: OutboundRequest<B>) -> (pending: Self)
        ensures
            pending@ == request,
    {
        Self { request }
    }

    /// Hands out the request to send. There is one, and it can be taken
    /// once.
    pub fn into_request(self) -> (request: OutboundRequest<B>)
        ensures
            request == self@,
    {
        self.request
    }

    /// What the exchange ends in: the backend's response as it came, or the
    /// transport's report as a failure of this one request.
    pub fn poll<R>(outcome: Result<R, String>) -> (result: Result<R, ProxyError>)
        ensures
            match outcome {
                Ok(response) => result == Ok::<R, ProxyError>(response),
                Err(cause) => result matches Err(ProxyError::Http(report)) && report@ == cause@,
            },
    {
        match outcome {
            Ok(response) => Ok(response),
            Err(cause) => Err(ProxyError::Http(cause)),
        }
    }
}

} // verus!
