//! Tests for route patterns and the router.

use rttp::context::Context;
use rttp::pattern::{Pattern, Segment};
use rttp::{Method, Request, Response, Router, StatusCode};

fn make_request(method: &str, path: &str) -> Request {
    let raw = format!("{method} {path} HTTP/1.1\r\nHost: localhost\r\n\r\n");
    let (req, _) = Request::parse(raw.as_bytes()).unwrap();
    req
}

type Handler = fn(Context) -> Response;

fn ok_handler(_ctx: Context) -> Response {
    Response::new(StatusCode::Okay)
}

fn accepted_handler(_ctx: Context) -> Response {
    Response::new(StatusCode::Accepted)
}

fn created_handler(_ctx: Context) -> Response {
    Response::new(StatusCode::Created)
}

/// Dispatches like the connection engine does: first matching route wins,
/// no match answers 404.
fn route_request(router: &Router<Handler>, request: Request) -> Response {
    match router.find_route(request.method(), request.path()) {
        Some((idx, params)) => {
            let handler = *router.handler_at(idx);
            handler(Context::with_params(request, params))
        }
        None => Response::new(StatusCode::NotFound),
    }
}

// -- Pattern::parse ----------------------------------------------------------

#[test]
fn pattern_parse_root() {
    assert!(matches!(Pattern::parse("/"), Pattern::Exact(s) if s == "/"));
}

#[test]
fn pattern_parse_exact() {
    assert!(matches!(Pattern::parse("/users"), Pattern::Exact(s) if s == "/users"));
}

#[test]
fn pattern_parse_exact_nested() {
    assert!(matches!(
        Pattern::parse("/users/profile"),
        Pattern::Exact(s) if s == "/users/profile"
    ));
}

#[test]
fn pattern_parse_trailing_slash_stripped() {
    // "/users/" should be normalized to "/users"
    assert!(matches!(Pattern::parse("/users/"), Pattern::Exact(s) if s == "/users"));
}

#[test]
fn pattern_parse_parameterized_single() {
    let pat = Pattern::parse("/users/:id");
    match pat {
        Pattern::Parameterized { segments } => {
            assert_eq!(segments.len(), 2);
            assert!(matches!(&segments[0], Segment::Static(s) if s == "users"));
            assert!(matches!(&segments[1], Segment::Parameter(s) if s == "id"));
        }
        other => panic!("expected Parameterized, got {other:?}"),
    }
}

#[test]
fn pattern_parse_parameterized_multi() {
    let pat = Pattern::parse("/users/:id/posts/:post_id");
    match pat {
        Pattern::Parameterized { segments } => {
            assert_eq!(segments.len(), 4);
            assert!(matches!(&segments[1], Segment::Parameter(s) if s == "id"));
            assert!(matches!(&segments[3], Segment::Parameter(s) if s == "post_id"));
        }
        other => panic!("expected Parameterized, got {other:?}"),
    }
}

#[test]
fn pattern_parse_wildcard() {
    assert!(matches!(
        Pattern::parse("/files/*"),
        Pattern::Wildcard(s) if s == "/files"
    ));
}

// -- Pattern::matches --------------------------------------------------------

#[test]
fn pattern_exact_match_hit() {
    let pat = Pattern::parse("/users");
    assert!(pat.matches("/users").is_some());
}

#[test]
fn pattern_exact_match_miss() {
    let pat = Pattern::parse("/users");
    assert!(pat.matches("/posts").is_none());
}

#[test]
fn pattern_exact_match_trailing_slash_normalized() {
    let pat = Pattern::parse("/users");
    assert!(pat.matches("/users/").is_some());
}

#[test]
fn pattern_exact_match_root() {
    let pat = Pattern::parse("/");
    assert!(pat.matches("/").is_some());
    assert!(pat.matches("/other").is_none());
}

#[test]
fn pattern_param_extracts_value() {
    let pat = Pattern::parse("/users/:id");
    let params = pat.matches("/users/42").unwrap();
    assert_eq!(params.get("id"), Some("42"));
}

#[test]
fn pattern_param_multi_extracts_values() {
    let pat = Pattern::parse("/users/:id/posts/:post_id");
    let params = pat.matches("/users/7/posts/99").unwrap();
    assert_eq!(params.get("id"), Some("7"));
    assert_eq!(params.get("post_id"), Some("99"));
}

#[test]
fn pattern_param_wrong_segment_count() {
    let pat = Pattern::parse("/users/:id");
    assert!(pat.matches("/users").is_none());
    assert!(pat.matches("/users/42/extra").is_none());
}

#[test]
fn pattern_param_wrong_static_segment() {
    let pat = Pattern::parse("/users/:id");
    // "posts" != "users"
    assert!(pat.matches("/posts/42").is_none());
}

#[test]
fn pattern_wildcard_match_hit() {
    let pat = Pattern::parse("/files/*");
    let params = pat.matches("/files/docs/readme.txt").unwrap();
    assert_eq!(params.get("wildcard"), Some("/docs/readme.txt"));
}

#[test]
fn pattern_wildcard_match_miss() {
    let pat = Pattern::parse("/files/*");
    assert!(pat.matches("/other/readme.txt").is_none());
}

#[test]
fn pattern_trailing_slash_patterns_accept_same_paths() {
    let with = Pattern::parse("/users/");
    let without = Pattern::parse("/users");
    for path in ["/users", "/users/", "/user", "/users/1", "/"] {
        assert_eq!(with.matches(path).is_some(), without.matches(path).is_some());
    }
}

#[test]
fn pattern_two_params_exact_captures() {
    let pat = Pattern::parse("/users/:id/posts/:pid");
    let params = pat.matches("/users/7/posts/99").unwrap();
    assert_eq!(params.get("id"), Some("7"));
    assert_eq!(params.get("pid"), Some("99"));
    assert!(pat.matches("/users/7").is_none());
}

// -- Router ------------------------------------------------------------------

#[test]
fn router_starts_empty() {
    let router: Router<Handler> = Router::new();
    assert!(router.is_empty());
    assert_eq!(router.len(), 0);
}

#[test]
fn router_default_is_empty() {
    let router: Router<Handler> = Router::default();
    assert!(router.is_empty());
}

#[test]
fn router_len_increments_on_add() {
    let mut router: Router<Handler> = Router::new();
    router.get("/a", ok_handler);
    router.post("/b", ok_handler);
    assert_eq!(router.len(), 2);
    assert!(!router.is_empty());
}

#[test]
fn router_empty_returns_404() {
    let router: Router<Handler> = Router::new();
    let res = route_request(&router, make_request("GET", "/"));
    assert_eq!(res.status(), StatusCode::NotFound);
}

#[test]
fn router_get_matches() {
    let mut router: Router<Handler> = Router::new();
    router.get("/hello", ok_handler);
    let res = route_request(&router, make_request("GET", "/hello"));
    assert_eq!(res.status(), StatusCode::Okay);
}

#[test]
fn router_get_does_not_match_post() {
    let mut router: Router<Handler> = Router::new();
    router.get("/hello", ok_handler);
    let res = route_request(&router, make_request("POST", "/hello"));
    assert_eq!(res.status(), StatusCode::NotFound);
}

#[test]
fn router_post_matches() {
    let mut router: Router<Handler> = Router::new();
    router.post("/submit", created_handler);
    let res = route_request(&router, make_request("POST", "/submit"));
    assert_eq!(res.status(), StatusCode::Created);
}

#[test]
fn router_unregistered_path_returns_404() {
    let mut router: Router<Handler> = Router::new();
    router.get("/hello", ok_handler);
    let res = route_request(&router, make_request("GET", "/world"));
    assert_eq!(res.status(), StatusCode::NotFound);
}

#[test]
fn router_first_matching_route_wins() {
    let mut router: Router<Handler> = Router::new();
    router.get("/path", ok_handler);
    router.get("/path", accepted_handler);
    let res = route_request(&router, make_request("GET", "/path"));
    assert_eq!(res.status(), StatusCode::Okay);
}

#[test]
fn router_parameterized_route_receives_params() {
    let mut router: Router<Handler> = Router::new();
    fn echo_id(ctx: Context) -> Response {
        let id = ctx.params().get("id").unwrap_or("").to_owned();
        Response::new(StatusCode::Okay).body(&id)
    }
    router.get("/users/:id", echo_id);
    let request = make_request("GET", "/users/42");
    let (idx, params) = router.find_route(request.method(), request.path()).unwrap();
    assert_eq!(params.get("id"), Some("42"));
    let handler = *router.handler_at(idx);
    let res = handler(Context::with_params(request, params));
    assert_eq!(res.status(), StatusCode::Okay);
}

#[test]
fn router_wildcard_route_matches() {
    let mut router: Router<Handler> = Router::new();
    router.get("/files/*", ok_handler);
    let res = route_request(&router, make_request("GET", "/files/docs/readme.txt"));
    assert_eq!(res.status(), StatusCode::Okay);
}

#[test]
fn router_method_variants_registered() {
    let mut router: Router<Handler> = Router::new();
    router.put("/r", ok_handler);
    router.delete("/r", ok_handler);
    router.patch("/r", ok_handler);
    router.options("/r", ok_handler);
    assert_eq!(router.len(), 4);
    assert_eq!(route_request(&router, make_request("PUT", "/r")).status(), StatusCode::Okay);
    assert_eq!(route_request(&router, make_request("DELETE", "/r")).status(), StatusCode::Okay);
    assert_eq!(route_request(&router, make_request("PATCH", "/r")).status(), StatusCode::Okay);
    assert_eq!(route_request(&router, make_request("OPTIONS", "/r")).status(), StatusCode::Okay);
}

#[test]
fn method_parse_round_trip() {
    let m = Method::parse("GET");
    assert_eq!(m, Method::Get);
    assert!(m.is_safe());
    assert!(m.is_idempotent());
    let c = Method::parse("BREW");
    assert_eq!(c.as_str(), "BREW");
    assert!(!c.is_idempotent());
}
