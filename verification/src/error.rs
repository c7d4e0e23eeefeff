//! What can go wrong while one request is dispatched, and the status code
//! each failure is answered with.

use vstd::prelude::*;

verus! {

/// A failure of a single dispatch. None of these ends the service: each is
/// turned into a response for the one request that met it.
#[derive(Debug)]
pub enum ProxyError {
    /// The matched route's target followed by the rest of the path is not a
    /// URI.
    InvalidRoute,
    /// The backend could not be reached, hung up, or answered with something
    /// that is not HTTP. Holds the transport's own report.
    Http(String),
    /// The request path climbs out of the document root.
    InvalidPath,
    /// The file is there but could not be read. Holds the system's report.
    Proxy(String),
}

/// `502 Bad Gateway`.
pub const BAD_GATEWAY: u16 = 502;

/// `403 Forbidden`.
pub const FORBIDDEN: u16 = 403;

/// `500 Internal Server Error`.
pub const INTERNAL_SERVER_ERROR: u16 = 500;

impl ProxyError {
    /// The status code that answers this failure.
    pub open spec fn spec_status(&self) -> u16 {
        match self {
            ProxyError::InvalidRoute => BAD_GATEWAY,
            ProxyError::Http(_) => BAD_GATEWAY,
            ProxyError::InvalidPath => FORBIDDEN,
            ProxyError::Proxy(_) => INTERNAL_SERVER_ERROR,
        }
    }

    /// The text that describes this failure to an operator.
    pub open spec fn spec_message(&self) -> Seq<char> {
        match self {
            ProxyError::InvalidRoute => "rewritten target is not a valid URI"@,
            ProxyError::Http(cause) => cause@,
            ProxyError::InvalidPath => "path leaves the document root"@,
            ProxyError::Proxy(cause) => cause@,
        }
    }

    /// The status code that answers this failure.
    #[verifier::when_used_as_spec(spec_status)]
    pub fn status(&self) -> (code: u16)
        ensures
            code == self.spec_status(),
    {
        match self {
            ProxyError::InvalidRoute => BAD_GATEWAY,
            ProxyError::Http(_) => BAD_GATEWAY,
            ProxyError::InvalidPath => FORBIDDEN,
            ProxyError::Proxy(_) => INTERNAL_SERVER_ERROR,
        }
    }

    /// The text that describes this failure to an operator: the underlying
    /// report where there is one. It is meant for a log, never for a
    /// response body.
    pub fn message(&self) -> (text: String)
        ensures
            text@ == self.spec_message(),
    {
        match self {
            ProxyError::InvalidRoute => "rewritten target is not a valid URI".to_owned(),
            ProxyError::Http(cause) => cause.clone(),
            ProxyError::InvalidPath => "path leaves the document root".to_owned(),
            ProxyError::Proxy(cause) => cause.clone(),
        }
    }
}

} // verus!
