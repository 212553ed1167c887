//! Request routing: binds (method, pattern) pairs to handlers and finds
//! the first registered route matching a request.
//!
//! Routes are evaluated in registration order; the first route whose
//! method and pattern both match wins. The router stores handlers as
//! opaque values and never invokes them itself: the caller looks up the
//! winning route and runs its handler.

use vstd::prelude::*;

use crate::context::{assoc_insert_all, PathParams};
use crate::http::{method_eq, Method};
use crate::pattern::{is_pattern_of, pat_match, Pattern};

verus! {

struct RouteEntry<H> {
    method: Method,
    pattern: Pattern,
    handler: H,
}

/// Whether a route with the given method and pattern matches a request
/// method and raw path.
pub open spec fn route_matches(m: Method, pat: Pattern, method: Method, path: Seq<char>) -> bool {
    method_eq(m, method) && pat_match(pat, path) is Some
}

/// An HTTP request router: an ordered table of (method, pattern, handler)
/// routes, dispatched first-match-wins.
pub struct Router<H> {
    routes: Vec<RouteEntry<H>>,
}

impl<H> Router<H> {
    /// The (method, pattern) pairs of the registered routes, in
    /// registration order.
    pub closed spec fn spec_routes(&self) -> Seq<(Method, Pattern)> {
        self.routes@.map_values(|r: RouteEntry<H>| (r.method, r.pattern))
    }

    /// The registered handlers, in registration order.
    pub closed spec fn spec_handlers(&self) -> Seq<H> {
        self.routes@.map_values(|r: RouteEntry<H>| r.handler)
    }

    /// Creates a new, empty router with no registered routes.
    pub fn new() -> (r: Self)
        ensures
            r.spec_routes() == Seq::<(Method, Pattern)>::empty(),
    {
        Router { routes: Vec::new() }
    }

    fn add_route(&mut self, method: Method, path: &str, handler: H)
        ensures
            final(self).spec_routes().len() == old(self).spec_routes().len() + 1,
            final(self).spec_handlers().len() == old(self).spec_handlers().len() + 1,
            final(self).spec_routes().take(old(self).spec_routes().len() as int) == old(
                self,
            ).spec_routes(),
            final(self).spec_handlers().take(old(self).spec_handlers().len() as int) == old(
                self,
            ).spec_handlers(),
            final(self).spec_routes().last().0 == method,
            is_pattern_of(path@, final(self).spec_routes().last().1),
            final(self).spec_handlers().last() == handler,
    {
        let pattern = Pattern::parse(path);
        self.routes.push(RouteEntry { method, pattern, handler });
        proof {
            assert(final(self).spec_routes().take(old(self).spec_routes().len() as int) =~= old(
                self,
            ).spec_routes());
            assert(final(self).spec_handlers().take(old(self).spec_handlers().len() as int) =~=
                old(self).spec_handlers());
        }
    }

    /// Registers a handler for `GET` requests matching `path`.
    pub fn get(&mut self, path: &str, handler: H)
        ensures
            final(self).spec_routes().len() == old(self).spec_routes().len() + 1,
            final(self).spec_handlers().len() == old(self).spec_handlers().len() + 1,
            final(self).spec_routes().take(old(self).spec_routes().len() as int) == old(
                self,
            ).spec_routes(),
            final(self).spec_handlers().take(old(self).spec_handlers().len() as int) == old(
                self,
            ).spec_handlers(),
            final(self).spec_routes().last().0 == Method::Get,
            is_pattern_of(path@, final(self).spec_routes().last().1),
            final(self).spec_handlers().last() == handler,
    {
        self.add_route(Method::Get, path, handler);
    }

    /// Registers a handler for `POST` requests matching `path`.
    pub fn post(&mut self, path: &str, handler: H)
        ensures
            final(self).spec_routes().len() == old(self).spec_routes().len() + 1,
            final(self).spec_handlers().len() == old(self).spec_handlers().len() + 1,
            final(self).spec_routes().take(old(self).spec_routes().len() as int) == old(
                self,
            ).spec_routes(),
            final(self).spec_handlers().take(old(self).spec_handlers().len() as int) == old(
                self,
            ).spec_handlers(),
            final(self).spec_routes().last().0 == Method::Post,
            is_pattern_of(path@, final(self).spec_routes().last().1),
            final(self).spec_handlers().last() == handler,
    {
        self.add_route(Method::Post, path, handler);
    }

    /// Registers a handler for `PUT` requests matching `path`.
    pub fn put(&mut self, path: &str, handler: H)
        ensures
            final(self).spec_routes().len() == old(self).spec_routes().len() + 1,
            final(self).spec_handlers().len() == old(self).spec_handlers().len() + 1,
            final(self).spec_routes().take(old(self).spec_routes().len() as int) == old(
                self,
            ).spec_routes(),
            final(self).spec_handlers().take(old(self).spec_handlers().len() as int) == old(
                self,
            ).spec_handlers(),
            final(self).spec_routes().last().0 == Method::Put,
            is_pattern_of(path@, final(self).spec_routes().last().1),
            final(self).spec_handlers().last() == handler,
    {
        self.add_route(Method::Put, path, handler);
    }

    /// Registers a handler for `DELETE` requests matching `path`.
    pub fn delete(&mut self, path: &str, handler: H)
        ensures
            final(self).spec_routes().len() == old(self).spec_routes().len() + 1,
            final(self).spec_handlers().len() == old(self).spec_handlers().len() + 1,
            final(self).spec_routes().take(old(self).spec_routes().len() as int) == old(
                self,
            ).spec_routes(),
            final(self).spec_handlers().take(old(self).spec_handlers().len() as int) == old(
                self,
            ).spec_handlers(),
            final(self).spec_routes().last().0 == Method::Delete,
            is_pattern_of(path@, final(self).spec_routes().last().1),
            final(self).spec_handlers().last() == handler,
    {
        self.add_route(Method::Delete, path, handler);
    }

    /// Registers a handler for `OPTIONS` requests matching `path`.
    pub fn options(&mut self, path: &str, handler: H)
        ensures
            final(self).spec_routes().len() == old(self).spec_routes().len() + 1,
            final(self).spec_handlers().len() == old(self).spec_handlers().len() + 1,
            final(self).spec_routes().take(old(self).spec_routes().len() as int) == old(
                self,
            ).spec_routes(),
            final(self).spec_handlers().take(old(self).spec_handlers().len() as int) == old(
                self,
            ).spec_handlers(),
            final(self).spec_routes().last().0 == Method::Options,
            is_pattern_of(path@, final(self).spec_routes().last().1),
            final(self).spec_handlers().last() == handler,
    {
        self.add_route(Method::Options, path, handler);
    }

    /// Registers a handler for `PATCH` requests matching `path`.
    pub fn patch(&mut self, path: &str, handler: H)
        ensures
            final(self).spec_routes().len() == old(self).spec_routes().len() + 1,
            final(self).spec_handlers().len() == old(self).spec_handlers().len() + 1,
            final(self).spec_routes().take(old(self).spec_routes().len() as int) == old(
                self,
            ).spec_routes(),
            final(self).spec_handlers().take(old(self).spec_handlers().len() as int) == old(
                self,
            ).spec_handlers(),
            final(self).spec_routes().last().0 == Method::Patch,
            is_pattern_of(path@, final(self).spec_routes().last().1),
            final(self).spec_handlers().last() == handler,
    {
        self.add_route(Method::Patch, path, handler);
    }

    /// Returns the number of routes registered in this router.
    pub fn len(&self) -> (r: usize)
        ensures
            r == self.spec_routes().len(),
    {
        self.routes.len()
    }

    /// Returns `true` if no routes have been registered.
    pub fn is_empty(&self) -> (r: bool)
        ensures
            r == (self.spec_routes().len() == 0),
    {
        self.routes.is_empty()
    }

    /// Finds the first route whose method and pattern match, in
    /// registration order, returning its index and the extracted path
    /// parameters.
    pub fn find_route(&self, method: &Method, path: &str) -> (r: Option<(usize, PathParams)>)
        ensures
            match r {
                Some(p) => {
                    &&& (p.0 as int) < self.spec_routes().len()
                    &&& route_matches(
                        self.spec_routes()[p.0 as int].0,
                        self.spec_routes()[p.0 as int].1,
                        *method,
                        path@,
                    )
                    &&& forall|j: int|
                        0 <= j < p.0 as int ==> !route_matches(
                            #[trigger] self.spec_routes()[j].0,
                            self.spec_routes()[j].1,
                            *method,
                            path@,
                        )
                    &&& match pat_match(self.spec_routes()[p.0 as int].1, path@) {
                        Some(caps) => p.1@ == assoc_insert_all(
                            Seq::<(Seq<char>, Seq<char>)>::empty(),
                            caps,
                        ),
                        None => false,
                    }
                },
                None => forall|j: int|
                    0 <= j < self.spec_routes().len() ==> !route_matches(
                        #[trigger] self.spec_routes()[j].0,
                        self.spec_routes()[j].1,
                        *method,
                        path@,
                    ),
            },
    {
        let n = self.routes.len();
        let mut i: usize = 0;
        while i < n
            invariant
                n == self.routes@.len(),
                i <= n,
                forall|j: int|
                    0 <= j < i ==> !route_matches(
                        #[trigger] self.spec_routes()[j].0,
                        self.spec_routes()[j].1,
                        *method,
                        path@,
                    ),
            decreases n - i,
        {
            if self.routes[i].method == *method {
                match self.routes[i].pattern.matches(path) {
                    Some(pp) => {
                        return Some((i, pp));
                    },
                    None => {},
                }
            }
            i += 1;
        }
        None
    }

    /// Returns the handler of the route at the given index.
    pub fn handler_at(&self, i: usize) -> (r: &H)
        requires
            i < self.spec_handlers().len(),
        ensures
            *r == self.spec_handlers()[i as int],
    {
        &self.routes[i].handler
    }
}

impl<H> Default for Router<H> {
    fn default() -> (r: Self)
        ensures
            r.spec_routes() == Seq::<(Method, Pattern)>::empty(),
    {
        Router::new()
    }
}

/// Law: dispatch is first-match-wins. The route that `find_route` picks
/// precedes every other matching route, so of two routes registered for
/// the same method and pattern the earlier-registered one is always the
/// one dispatched.
pub proof fn lemma_first_match_wins(
    rs: Seq<(Method, Pattern)>,
    method: Method,
    path: Seq<char>,
    winner: int,
    other: int,
)
    requires
        0 <= winner < rs.len(),
        0 <= other < rs.len(),
        route_matches(rs[winner].0, rs[winner].1, method, path),
        forall|j: int|
            0 <= j < winner ==> !route_matches(#[trigger] rs[j].0, rs[j].1, method, path),
        route_matches(rs[other].0, rs[other].1, method, path),
        other != winner,
    ensures
        winner < other,
{
}

} // verus!
