//! Responses that the dispatcher makes up itself.

use vstd::prelude::*;
use crate::error::ProxyError;

verus! {

/// `200 OK`.
pub const OK: u16 = 200;

/// `404 Not Found`.
pub const NOT_FOUND: u16 = 404;

/// A status code and a body. Responses of a backend do not pass through this
/// type: they are relayed as they come.
#[derive(Debug)]
pub struct Response {
    pub status: u16,
    pub body: Vec<u8>,
}

impl Response {
    /// `200 OK` with `body` as it is.
    pub fn ok(body: Vec<u8>) -> (response: Response)
        ensures
            response.status == OK,
            response.body@ == body@,
    {
        Response { status: OK, body }
    }

    /// `404 Not Found` with an empty body.
    pub fn not_found() -> (response: Response)
        ensures
            response.status == NOT_FOUND,
            response.body@ == Seq::<u8>::empty(),
    {
        Response { status: NOT_FOUND, body: Vec::new() }
    }

    /// The response that answers a failed dispatch: the failure's status code
    /// and an empty body, so that nothing of the cause reaches the client.
    pub fn from_error(error: &ProxyError) -> (response: Response)
        ensures
            response.status == error.spec_status(),
            response.body@ == Seq::<u8>::empty(),
    {
        Response { status: error.status(), body: Vec::new() }
    }

    /// The response that ends a dispatch, whichever way it went: what was
    /// served, or the answer to what went wrong.
    pub fn settle(result: Result<Response, ProxyError>) -> (response: Response)
        ensures
            match result {
                Ok(served) => response == served,
                Err(error) => response.status == error.spec_status() && response.body@
                    == Seq::<u8>::empty(),
            },
    {
        match result {
            Ok(served) => served,
            Err(error) => Response::from_error(&error),
        }
    }
}

} // verus!
