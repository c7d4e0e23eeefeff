//! The dispatcher: an ordered table of proxy rules and a document root.

use vstd::prelude::*;
use crate::error::{ProxyError, BAD_GATEWAY, FORBIDDEN};
use crate::forward::ProxyResponseFuture;
use crate::path::{
    below, leaves_root, lemma_resolve_fails_iff_leaves_root, lemma_sanitized_stays_below, locate,
    parent_segment, sanitize, sanitized, segments,
};
use crate::request::InboundRequest;
use crate::route::{ProxyRoute, RouteEntry};
use crate::static_file::StaticFileFuture;
use crate::uri::uri_accepts;

verus! {

/// Whether rule `i` is the one that answers for `path`: it applies, and no
/// rule before it does.
pub open spec fn is_first_match(routes: Seq<RouteEntry>, path: Seq<char>, i: int) -> bool {
    &&& 0 <= i < routes.len()
    &&& routes[i].matches(path)
    &&& forall|j: int| 0 <= j < i ==> !(#[trigger] routes[j]).matches(path)
}

/// The place in the table of the rule that answers for `path`, if any does.
pub open spec fn first_match(routes: Seq<RouteEntry>, path: Seq<char>) -> Option<int> {
    if exists|i: int| is_first_match(routes, path, i) {
        Some(choose|i: int| is_first_match(routes, path, i))
    } else {
        None
    }
}

/// What is to be done about a request.
pub enum Decision {
    /// Send it to the backend of rule `route`, addressed to `uri`.
    Forward { route: int, uri: Seq<char> },
    /// Answer it from the file at `file`.
    Serve { file: Seq<char> },
    /// Refuse it.
    Refuse { error: ProxyError },
}

/// What a dispatcher is made of.
pub struct ServiceView {
    pub root: Seq<char>,
    pub routes: Seq<RouteEntry>,
}

impl ServiceView {
    /// What is to be done about a request for `path`. The first rule that
    /// applies decides: the request goes to its backend, or is refused if
    /// the rewritten address is not a URI. If no rule applies, the path
    /// names a file below the root, or is refused if it leaves the root.
    pub open spec fn decide(self, path: Seq<char>) -> Decision {
        match first_match(self.routes, path) {
            Some(i) => {
                let uri = self.routes[i].rewritten(path);
                if uri_accepts(uri) {
                    Decision::Forward { route: i, uri }
                } else {
                    Decision::Refuse { error: ProxyError::InvalidRoute }
                }
            },
            None => match sanitized(path) {
                Some(relative) => Decision::Serve { file: below(self.root, relative) },
                None => Decision::Refuse { error: ProxyError::InvalidPath },
            },
        }
    }
}

/// Any two rules that both answer first for a path are the same rule.
pub proof fn lemma_first_match_is_unique(
    routes: Seq<RouteEntry>,
    path: Seq<char>,
    i: int,
    j: int,
)
    requires
        is_first_match(routes, path, i),
        is_first_match(routes, path, j),
    ensures
        i == j,
{
    if i < j {
        assert(!routes[i].matches(path));
    } else if j < i {
        assert(!routes[j].matches(path));
    }
}

/// A rule that applies to a path, with no rule before it that does, is the
/// one that decides: the request goes to that rule's target followed by
/// what the path holds behind the prefix, provided that this is a URI, and
/// is refused as an invalid route if it is not.
pub proof fn lemma_matching_rule_forwards(service: ServiceView, path: Seq<char>, i: int)
    requires
        is_first_match(service.routes, path, i),
    ensures
        first_match(service.routes, path) == Some(i),
        uri_accepts(service.routes[i].target + path.skip(service.routes[i].prefix.len() as int))
            ==> service.decide(path) == (Decision::Forward {
            route: i,
            uri: service.routes[i].target + path.skip(service.routes[i].prefix.len() as int),
        }),
        !uri_accepts(service.routes[i].target + path.skip(service.routes[i].prefix.len() as int))
            ==> service.decide(path) == (Decision::Refuse { error: ProxyError::InvalidRoute }),
{
    let chosen = choose|k: int| is_first_match(service.routes, path, k);
    lemma_first_match_is_unique(service.routes, path, i, chosen);
}

/// Where two rules apply to a path, the later one never decides: the rule
/// that answers stands no later in the table than any rule that applies.
pub proof fn lemma_earlier_rule_wins(routes: Seq<RouteEntry>, path: Seq<char>, i: int, j: int)
    requires
        0 <= i < j < routes.len(),
        routes[i].matches(path),
        routes[j].matches(path),
    ensures
        first_match(routes, path) matches Some(k) && k <= i && routes[k].matches(path),
        first_match(routes, path) != Some(j),
{
    lemma_some_rule_answers(routes, path, i);
    let k = first_match(routes, path)->0;
    if i < k {
        assert(!routes[i].matches(path));
    }
}

/// Where a rule applies to a path, some rule answers for it: the first of
/// those that apply.
pub proof fn lemma_some_rule_answers(routes: Seq<RouteEntry>, path: Seq<char>, i: int)
    requires
        0 <= i < routes.len(),
        routes[i].matches(path),
    ensures
        first_match(routes, path) matches Some(k) && is_first_match(routes, path, k),
    decreases i,
{
    if exists|j: int| 0 <= j < i && (#[trigger] routes[j]).matches(path) {
        let j = choose|j: int| 0 <= j < i && (#[trigger] routes[j]).matches(path);
        lemma_some_rule_answers(routes, path, j);
    } else {
        assert(is_first_match(routes, path, i));
    }
}

/// No rule answers for a path exactly when no rule applies to it.
pub proof fn lemma_no_rule_answers(routes: Seq<RouteEntry>, path: Seq<char>)
    ensures
        first_match(routes, path) is None <==> forall|i: int|
            0 <= i < routes.len() ==> !(#[trigger] routes[i]).matches(path),
{
    if first_match(routes, path) is None {
        assert forall|i: int| 0 <= i < routes.len() implies !(#[trigger] routes[i]).matches(
            path,
        ) by {
            if routes[i].matches(path) {
                lemma_some_rule_answers(routes, path, i);
            }
        }
    } else {
        let k = first_match(routes, path)->0;
        assert(is_first_match(routes, path, k));
    }
}

/// A path that no rule applies to is answered from the document root: from
/// the file that its sanitised form names below the root if it stays below
/// it, and with a refusal if it leaves it. No file that is served is named
/// through a `..`.
pub proof fn lemma_unmatched_path_is_served_below_root(service: ServiceView, path: Seq<char>)
    requires
        forall|i: int| 0 <= i < service.routes.len() ==> !(#[trigger] service.routes[i]).matches(
            path,
        ),
    ensures
        leaves_root(segments(path)) ==> service.decide(path) == (Decision::Refuse {
            error: ProxyError::InvalidPath,
        }),
        !leaves_root(segments(path)) ==> ({
            &&& sanitized(path) matches Some(relative)
            &&& service.decide(path) == (Decision::Serve { file: below(service.root, relative) })
            &&& forall|k: int|
                0 <= k < segments(relative).len() ==> (#[trigger] segments(relative)[k])
                    != parent_segment()
        }),
{
    lemma_no_rule_answers(service.routes, path);
    lemma_resolve_fails_iff_leaves_root(segments(path));
    lemma_sanitized_stays_below(path);
}

/// A refused request is answered with a `4xx` or `5xx` status: a path that
/// leaves the root with `403`, a target that is no URI with `502`.
pub proof fn lemma_refusals_are_errors(service: ServiceView, path: Seq<char>)
    ensures
        service.decide(path) matches Decision::Refuse { error } ==> {
            &&& error.spec_status() == FORBIDDEN || error.spec_status() == BAD_GATEWAY
            &&& error.spec_status() == FORBIDDEN <==> first_match(service.routes, path) is None
        },
{
}

/// What the dispatcher hands back for a request: the work that is left to
/// do, which is at most one exchange with a backend or one read of a file.
pub enum Dispatch<B> {
    /// Send this request to the backend and relay what comes back.
    Forward(ProxyResponseFuture<B>),
    /// Read this file and answer with it.
    Static(StaticFileFuture),
    /// Answer with this failure.
    Failed(ProxyError),
}

/// The dispatcher.
pub struct DevProxService {
    root: String,
    proxies: Vec<ProxyRoute>,
}

impl View for DevProxService {
    type V = ServiceView;

    closed spec fn view(&self) -> ServiceView {
        ServiceView {
            root: self.root@,
            routes: Seq::new(self.proxies@.len(), |i: int| self.proxies@[i]@),
        }
    }
}

impl DevProxService {
    /// Whether every rule of the table is well-formed.
    pub open spec fn wf(&self) -> bool {
        forall|i: int| 0 <= i < self@.routes.len() ==> (#[trigger] self@.routes[i]).prefix.len() > 0
    }

    /// A dispatcher that serves files below `root` and has no proxy rules
    /// yet.
    pub fn new(root: String) -> (service: Self)
        ensures
            service@.root == root@,
            service@.routes == Seq::<RouteEntry>::empty(),
            service.wf(),
    {
        let service = DevProxService { root, proxies: Vec::new() };
        assert(service@.routes =~= Seq::<RouteEntry>::empty());
        service
    }

    /// Adds `proxy` at the end of the table: it answers for the paths that
    /// no rule before it applies to.
    pub fn proxy(&mut self, proxy: ProxyRoute)
        requires
            old(self).wf(),
            proxy.wf(),
        ensures
            final(self)@.root == old(self)@.root,
            final(self)@.routes == old(self)@.routes.push(proxy@),
            final(self).wf(),
    {
        self.proxies.push(proxy);
        assert(self@.routes =~= old(self)@.routes.push(proxy@));
    }

    /// The document root.
    pub fn root(&self) -> (root: &str)
        ensures
            root@ == self@.root,
    {
        self.root.as_str()
    }

    /// The first rule of the table that applies to `path`, in the order in
    /// which the rules were added.
    pub fn lookup(&self, path: &str) -> (found: Option<&ProxyRoute>)
        ensures
            match first_match(self@.routes, path@) {
                Some(i) => found matches Some(rule) && rule@ == self@.routes[i],
                None => found is None,
            },
    {
        let mut i: usize = 0;
        while i < self.proxies.len()
            invariant
                i <= self.proxies.len(),
                forall|j: int| 0 <= j < i ==> !(#[trigger] self@.routes[j]).matches(path@),
            decreases self.proxies.len() - i,
        {
            let rule = &self.proxies[i];
            assert(rule@ == self@.routes[i as int]);
            if rule.matches(path) {
                proof {
                    assert(is_first_match(self@.routes, path@, i as int));
                    let chosen = first_match(self@.routes, path@)->0;
                    lemma_first_match_is_unique(self@.routes, path@, i as int, chosen);
                }
                return Some(rule);
            }
            i = i + 1;
        }
        assert(forall|k: int| !is_first_match(self@.routes, path@, k));
        None
    }

    /// Decides what is to be done about `request`. A request that a rule
    /// answers for comes back as the one request to send on, with its
    /// method, headers and body untouched; any other comes back as the file
    /// to read; and where neither can be done, as the failure to answer
    /// with.
    pub fn call<B>(&self, request: InboundRequest<B>) -> (dispatch: Dispatch<B>)
        ensures
            match self@.decide(request.path@) {
                Decision::Forward { route, uri } => {
                    &&& dispatch matches Dispatch::Forward(pending)
                    &&& pending@.uri@ == uri
                    &&& pending@.method == request.method
                    &&& pending@.headers == request.headers
                    &&& pending@.body == request.body
                },
                Decision::Serve { file } => dispatch matches Dispatch::Static(pending) && pending@
                    == file,
                Decision::Refuse { error } => dispatch matches Dispatch::Failed(failure)
                    && failure == error,
            },
    {
        match self.lookup(request.path.as_str()) {
            Some(rule) => match rule.request(request) {
                Ok(outbound) => Dispatch::Forward(ProxyResponseFuture::new(outbound)),
                Err(error) => Dispatch::Failed(error),
            },
            None => match sanitize(request.path.as_str()) {
                Some(relative) => Dispatch::Static(
                    StaticFileFuture::new(locate(self.root.as_str(), relative.as_str())),
                ),
                None => Dispatch::Failed(ProxyError::InvalidPath),
            },
        }
    }
}

} // verus!
