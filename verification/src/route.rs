//! One proxy rule: a path prefix and the backend that answers for it.

use vstd::prelude::*;
use vstd::string::StringExecFns;
use crate::error::ProxyError;
use crate::request::{InboundRequest, OutboundRequest};
use crate::text::starts_with;
use crate::uri::{parses_as_uri, uri_accepts};

verus! {

/// What a rule says: requests whose path begins with `prefix` go to
/// `target`.
pub struct RouteEntry {
    pub prefix: Seq<char>,
    pub target: Seq<char>,
}

impl RouteEntry {
    /// Whether the rule applies to `path`: `prefix` is compared as it is
    /// written, with no pattern in it and no special case for a trailing
    /// slash.
    pub open spec fn matches(self, path: Seq<char>) -> bool {
        self.prefix.is_prefix_of(path)
    }

    /// What is left of `path` once `prefix` is taken from its front.
    pub open spec fn suffix(self, path: Seq<char>) -> Seq<char>
        recommends
            self.matches(path),
    {
        path.skip(self.prefix.len() as int)
    }

    /// The text of the address that a request for `path` is sent on to.
    pub open spec fn rewritten(self, path: Seq<char>) -> Seq<char>
        recommends
            self.matches(path),
    {
        self.target + self.suffix(path)
    }
}

/// A proxy rule.
#[derive(Debug)]
pub struct ProxyRoute {
    route: String,
    proxy: String,
}

impl View for ProxyRoute {
    type V = RouteEntry;

    closed spec fn view(&self) -> RouteEntry {
        RouteEntry { prefix: self.route@, target: self.proxy@ }
    }
}

impl ProxyRoute {
    /// Whether the rule is one that a table may hold: its prefix is not
    /// empty.
    pub open spec fn wf(&self) -> bool {
        self@.prefix.len() > 0
    }

    /// The rule that sends paths beginning with `route` to `proxy`.
    pub fn new(route: String, proxy: String) -> (rule: Self)
        requires
            route@.len() > 0,
        ensures
            rule@.prefix == route@,
            rule@.target == proxy@,
            rule.wf(),
    {
        Self { route, proxy }
    }

    /// The prefix that a path must begin with.
    pub fn route(&self) -> (prefix: &str)
        ensures
            prefix@ == self@.prefix,
    {
        self.route.as_str()
    }

    /// The base address of the backend.
    pub fn proxy(&self) -> (target: &str)
        ensures
            target@ == self@.target,
    {
        self.proxy.as_str()
    }

    /// Whether the rule applies to `path`.
    pub fn matches(&self, path: &str) -> (b: bool)
        ensures
            b == self@.matches(path@),
    {
        starts_with(path, self.route.as_str())
    }

    /// The text of the address that a request for `path` is sent on to: the
    /// target, then what follows the prefix in `path`.
    pub fn target_text(&self, path: &str) -> (text: String)
        requires
            self@.matches(path@),
        ensures
            text@ == self@.rewritten(path@),
    {
        let from = self.route.as_str().unicode_len();
        let to = path.unicode_len();
        let rest = path.substring_char(from, to);
        self.proxy.clone().concat(rest)
    }

    /// Lets `text` pass as the address of an outbound request if the URI
    /// parser accepted it, and reports an invalid route if not.
    pub fn checked(text: String, accepted: bool) -> (result: Result<String, ProxyError>)
        ensures
            match result {
                Ok(uri) => accepted && uri@ == text@,
                Err(error) => !accepted && error is InvalidRoute,
            },
    {
        if accepted {
            Ok(text)
        } else {
            Err(ProxyError::InvalidRoute)
        }
    }

    /// The address that a request for `path` is sent on to, or an invalid
    /// route if target and suffix together are not a URI.
    pub fn rewrite(&self, path: &str) -> (result: Result<String, ProxyError>)
        requires
            self@.matches(path@),
        ensures
            match result {
                Ok(uri) => uri_accepts(self@.rewritten(path@)) && uri@ == self@.rewritten(path@),
                Err(error) => !uri_accepts(self@.rewritten(path@)) && error is InvalidRoute,
            },
    {
        let text = self.target_text(path);
        let accepted = parses_as_uri(text.as_str());
        Self::checked(text, accepted)
    }

    /// The request that `request` becomes on its way to the backend: the
    /// same method, headers and body, addressed to the rewritten URI. An
    /// invalid route if that address is not a URI.
    pub fn request<B>(&self, request: InboundRequest<B>) -> (result: Result<
        OutboundRequest<B>,
        ProxyError,
    >)
        requires
            self@.matches(request.path@),
        ensures
            match result {
                Ok(outbound) => {
                    &&& uri_accepts(self@.rewritten(request.path@))
                    &&& outbound.uri@ == self@.rewritten(request.path@)
                    &&& outbound.method == request.method
                    &&& outbound.headers == request.headers
                    &&& outbound.body == request.body
                },
                Err(error) => !uri_accepts(self@.rewritten(request.path@))
                    && error is InvalidRoute,
            },
    {
        match self.rewrite(request.path.as_str()) {
            Ok(uri) => Ok(
                OutboundRequest {
                    method: request.method,
                    uri,
                    headers: request.headers,
                    body: request.body,
                },
            ),
            Err(error) => Err(error),
        }
    }
}

} // verus!
