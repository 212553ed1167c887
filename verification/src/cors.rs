//! CORS policy: origin allow-list checks, preflight short-circuiting and
//! response decoration.
//!
//! The policy decision is a pure function of the request's `Origin`
//! header and method: no `Origin`, or one not in the allow-list, passes
//! the request through untouched; a preflight `OPTIONS` request from an
//! accepted origin is answered directly with `204 No Content` and the
//! `Access-Control-*` headers, never reaching the terminal handler; any
//! other request from an accepted origin runs normally and its response
//! is decorated with the same headers.

use vstd::prelude::*;

use crate::http::{method_eq, Method, StatusCode};
use crate::response::Response;
use crate::text::str_eq;

verus! {

/// Whether the list holds the given string.
pub open spec fn contains_str(l: Seq<Seq<char>>, s: Seq<char>) -> bool {
    exists|i: int| 0 <= i < l.len() && l[i] == s
}

/// The `Access-Control-Allow-Origin` value granted to a request origin:
/// `*` when the allow-list holds the wildcard, the origin itself when
/// listed, nothing otherwise.
pub open spec fn allow_origin_spec(origins: Seq<Seq<char>>, origin: Seq<char>) -> Option<
    Seq<char>,
> {
    if contains_str(origins, "*"@) {
        Some("*"@)
    } else if contains_str(origins, origin) {
        Some(origin)
    } else {
        None
    }
}

/// The list joined with `", "` between elements.
pub open spec fn join_comma(parts: Seq<Seq<char>>) -> Seq<char>
    decreases parts.len(),
{
    if parts.len() == 0 {
        Seq::empty()
    } else if parts.len() == 1 {
        parts[0]
    } else {
        parts[0] + ", "@ + join_comma(parts.drop_first())
    }
}

/// The headers CORS attaches: the three `Access-Control-Allow-*` headers,
/// `Access-Control-Max-Age` on preflight answers, and `Vary: Origin` when
/// a specific (non-wildcard) origin is echoed back.
pub open spec fn cors_headers(
    ao: Seq<char>,
    methods: Seq<char>,
    headers: Seq<char>,
    preflight: bool,
) -> Seq<(Seq<char>, Seq<char>)> {
    seq![
        ("Access-Control-Allow-Origin"@, ao),
        ("Access-Control-Allow-Methods"@, methods),
        ("Access-Control-Allow-Headers"@, headers),
    ] + (if preflight {
        seq![("Access-Control-Max-Age"@, "3600"@)]
    } else {
        Seq::<(Seq<char>, Seq<char>)>::empty()
    }) + (if ao != "*"@ {
        seq![("Vary"@, "Origin"@)]
    } else {
        Seq::<(Seq<char>, Seq<char>)>::empty()
    })
}

/// The strategy CORS picks for one request.
pub enum CorsDecision {
    /// No origin, or one not in the allow-list: pass the request through
    /// untouched.
    Forward,
    /// A preflight request from an accepted origin: answer directly with
    /// the carried `Access-Control-Allow-Origin` value; the terminal
    /// handler is never reached.
    Preflight(String),
    /// An ordinary request from an accepted origin: run it, then add the
    /// CORS headers to the response.
    Decorate(String),
}

/// CORS middleware configuration: the origin allow-list and the methods
/// and headers advertised in preflight answers.
#[derive(Debug, Clone)]
pub struct CorsMiddleware {
    allowed_origins: Vec<String>,
    allowed_methods: Vec<String>,
    allowed_headers: Vec<String>,
}

impl CorsMiddleware {
    /// The configured allowed origins.
    pub closed spec fn spec_origins(&self) -> Seq<Seq<char>> {
        self.allowed_origins@.map_values(|s: String| s@)
    }

    /// The configured allowed methods.
    pub closed spec fn spec_methods(&self) -> Seq<Seq<char>> {
        self.allowed_methods@.map_values(|s: String| s@)
    }

    /// The configured allowed request headers.
    pub closed spec fn spec_headers(&self) -> Seq<Seq<char>> {
        self.allowed_headers@.map_values(|s: String| s@)
    }

    /// Creates a policy with permissive defaults: all origins, the
    /// common methods, and the common request headers.
    pub fn new() -> (r: Self)
        ensures
            r.spec_origins() == seq!["*"@],
            r.spec_methods() == seq!["GET"@, "POST"@, "PUT"@, "DELETE"@],
            r.spec_headers() == seq!["Content-Type"@, "Authorization"@],
    {
        let mut origins: Vec<String> = Vec::new();
        origins.push("*".to_owned());
        let mut methods: Vec<String> = Vec::new();
        methods.push("GET".to_owned());
        methods.push("POST".to_owned());
        methods.push("PUT".to_owned());
        methods.push("DELETE".to_owned());
        let mut headers: Vec<String> = Vec::new();
        headers.push("Content-Type".to_owned());
        headers.push("Authorization".to_owned());
        let r = CorsMiddleware {
            allowed_origins: origins,
            allowed_methods: methods,
            allowed_headers: headers,
        };
        proof {
            assert(r.spec_origins() =~= seq!["*"@]);
            assert(r.spec_methods() =~= seq!["GET"@, "POST"@, "PUT"@, "DELETE"@]);
            assert(r.spec_headers() =~= seq!["Content-Type"@, "Authorization"@]);
        }
        r
    }

    /// Adds an allowed origin; `*` permits all origins.
    pub fn allow_origin(self, origin: &str) -> (r: Self)
        ensures
            r.spec_origins() == self.spec_origins().push(origin@),
            r.spec_methods() == self.spec_methods(),
            r.spec_headers() == self.spec_headers(),
    {
        let mut this = self;
        this.allowed_origins.push(origin.to_owned());
        proof {
            assert(this.spec_origins() =~= self.spec_origins().push(origin@));
        }
        this
    }

    /// Adds an allowed HTTP method, sent verbatim in
    /// `Access-Control-Allow-Methods`.
    pub fn allow_method(self, method: &str) -> (r: Self)
        ensures
            r.spec_origins() == self.spec_origins(),
            r.spec_methods() == self.spec_methods().push(method@),
            r.spec_headers() == self.spec_headers(),
    {
        let mut this = self;
        this.allowed_methods.push(method.to_owned());
        proof {
            assert(this.spec_methods() =~= self.spec_methods().push(method@));
        }
        this
    }

    /// Adds an allowed request header, sent verbatim in
    /// `Access-Control-Allow-Headers`.
    pub fn allow_header(self, header: &str) -> (r: Self)
        ensures
            r.spec_origins() == self.spec_origins(),
            r.spec_methods() == self.spec_methods(),
            r.spec_headers() == self.spec_headers().push(header@),
    {
        let mut this = self;
        this.allowed_headers.push(header.to_owned());
        proof {
            assert(this.spec_headers() =~= self.spec_headers().push(header@));
        }
        this
    }

    /// Picks the strategy for a request: forward untouched when there is
    /// no origin or the origin is not allowed; short-circuit a preflight
    /// `OPTIONS` request from an accepted origin; decorate anything else
    /// from an accepted origin.
    pub fn check(&self, origin: Option<&str>, method: &Method) -> (r: CorsDecision)
        ensures
            match origin {
                None => r is Forward,
                Some(o) => match allow_origin_spec(self.spec_origins(), o@) {
                    None => r is Forward,
                    Some(ao) => if method_eq(*method, Method::Options) {
                        r matches CorsDecision::Preflight(s) && s@ == ao
                    } else {
                        r matches CorsDecision::Decorate(s) && s@ == ao
                    },
                },
            },
    {
        let o = match origin {
            None => {
                return CorsDecision::Forward;
            },
            Some(o) => o,
        };
        let allow: String = if contains_exec(&self.allowed_origins, "*") {
            "*".to_owned()
        } else if contains_exec(&self.allowed_origins, o) {
            o.to_owned()
        } else {
            return CorsDecision::Forward;
        };
        if method == &Method::Options {
            CorsDecision::Preflight(allow)
        } else {
            CorsDecision::Decorate(allow)
        }
    }

    /// Builds the short-circuit answer to an accepted preflight request:
    /// `204 No Content` with the CORS headers and no body.
    pub fn preflight_response(&self, allow_origin: &str) -> (r: Response)
        ensures
            r.spec_status() == StatusCode::NoContent,
            r.spec_body() == Seq::<u8>::empty(),
            r.spec_keep_alive(),
            r.spec_headers() == cors_headers(
                allow_origin@,
                join_comma(self.spec_methods()),
                join_comma(self.spec_headers()),
                true,
            ),
    {
        let methods_str = join_comma_exec(&self.allowed_methods);
        let headers_str = join_comma_exec(&self.allowed_headers);
        let mut resp = Response::new(StatusCode::NoContent).header(
            "Access-Control-Allow-Origin",
            allow_origin,
        ).header("Access-Control-Allow-Methods", methods_str.as_str()).header(
            "Access-Control-Allow-Headers",
            headers_str.as_str(),
        ).header("Access-Control-Max-Age", "3600");
        if !str_eq(allow_origin, "*") {
            resp.add_header("Vary", "Origin");
        }
        proof {
            assert(resp.spec_headers() =~= cors_headers(
                allow_origin@,
                join_comma(self.spec_methods()),
                join_comma(self.spec_headers()),
                true,
            ));
        }
        resp
    }

    /// Decorates a response coming back from the handler with the CORS
    /// headers; status, body and keep-alive stay untouched.
    pub fn apply_cors_headers(&self, resp: &mut Response, allow_origin: &str)
        ensures
            final(resp).spec_status() == old(resp).spec_status(),
            final(resp).spec_body() == old(resp).spec_body(),
            final(resp).spec_keep_alive() == old(resp).spec_keep_alive(),
            final(resp).spec_headers() == old(resp).spec_headers() + cors_headers(
                allow_origin@,
                join_comma(self.spec_methods()),
                join_comma(self.spec_headers()),
                false,
            ),
    {
        let methods_str = join_comma_exec(&self.allowed_methods);
        let headers_str = join_comma_exec(&self.allowed_headers);
        resp.add_header("Access-Control-Allow-Origin", allow_origin);
        resp.add_header("Access-Control-Allow-Methods", methods_str.as_str());
        resp.add_header("Access-Control-Allow-Headers", headers_str.as_str());
        if !str_eq(allow_origin, "*") {
            resp.add_header("Vary", "Origin");
        }
        proof {
            assert(final(resp).spec_headers() =~= old(resp).spec_headers() + cors_headers(
                allow_origin@,
                join_comma(self.spec_methods()),
                join_comma(self.spec_headers()),
                false,
            ));
        }
    }
}

impl Default for CorsMiddleware {
    fn default() -> (r: Self)
        ensures
            r.spec_origins() == seq!["*"@],
            r.spec_methods() == seq!["GET"@, "POST"@, "PUT"@, "DELETE"@],
            r.spec_headers() == seq!["Content-Type"@, "Authorization"@],
    {
        CorsMiddleware::new()
    }
}

/// Whether the list holds the given string.
fn contains_exec(l: &Vec<String>, s: &str) -> (r: bool)
    ensures
        r == contains_str(l@.map_values(|v: String| v@), s@),
{
    let n = l.len();
    let ghost lv = l@.map_values(|v: String| v@);
    let mut i: usize = 0;
    while i < n
        invariant
            n == l@.len(),
            lv == l@.map_values(|v: String| v@),
            i <= n,
            forall|j: int| 0 <= j < i ==> lv[j] != s@,
        decreases n - i,
    {
        if str_eq(l[i].as_str(), s) {
            proof {
                assert(lv[i as int] == s@);
            }
            return true;
        }
        i += 1;
    }
    false
}

/// Joins the list with `", "` between elements.
fn join_comma_exec(l: &Vec<String>) -> (r: String)
    ensures
        r@ == join_comma(l@.map_values(|v: String| v@)),
{
    let n = l.len();
    let ghost lv = l@.map_values(|v: String| v@);
    let mut out = String::new();
    let mut i: usize = 0;
    proof {
        assert(lv.skip(0) =~= lv);
        assert(out@ + join_comma(lv) =~= join_comma(lv));
    }
    while i < n
        invariant
            n == l@.len(),
            lv == l@.map_values(|v: String| v@),
            i <= n,
            join_comma(lv) == out@ + join_comma(lv.skip(i as int)),
        decreases n - i,
    {
        proof {
            assert(lv.skip(i as int)[0] == lv[i as int]);
            assert(lv.skip(i as int).drop_first() =~= lv.skip(i + 1));
        }
        let ghost prev = out@;
        out.append(l[i].as_str());
        if i + 1 < n {
            out.append(", ");
            proof {
                assert(lv.skip(i as int).len() > 1);
                assert(out@ =~= prev + lv[i as int] + ", "@);
                assert(out@ + join_comma(lv.skip(i + 1)) =~= prev + (lv[i as int] + ", "@
                    + join_comma(lv.skip(i as int).drop_first())));
            }
        } else {
            proof {
                assert(lv.skip(i as int).len() == 1);
                assert(join_comma(lv.skip(i as int)) == lv[i as int]);
                assert(lv.skip(i + 1) =~= Seq::<Seq<char>>::empty());
                assert(out@ + join_comma(lv.skip(i + 1)) =~= prev + lv[i as int]);
            }
        }
        i += 1;
    }
    proof {
        assert(lv.skip(n as int) =~= Seq::<Seq<char>>::empty());
        assert(out@ =~= out@ + join_comma(lv.skip(n as int)));
    }
    out
}

} // verus!
