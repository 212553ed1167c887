//! Tests for the connection engine, the middleware cursor and the CORS
//! policy.

use rttp::connection::{Connection, Progress};
use rttp::cors::{CorsDecision, CorsMiddleware};
use rttp::middleware::Next;
use rttp::{Request, Response, StatusCode};

fn to_string(bytes: Vec<u8>) -> String {
    String::from_utf8(bytes).unwrap()
}

// -- Connection engine -------------------------------------------------------

#[test]
fn engine_waits_for_more_data() {
    let mut conn = Connection::new();
    let r = conn.on_data(b"GET / HTTP/1.1\r\nHost:");
    assert!(matches!(r, Progress::NeedMore));
}

#[test]
fn engine_dispatches_complete_request() {
    let mut conn = Connection::new();
    match conn.on_data(b"GET /hello HTTP/1.1\r\nHost: localhost\r\n\r\n") {
        Progress::Dispatch(req) => {
            assert_eq!(req.path(), "/hello");
            assert!(req.is_keep_alive());
        }
        _ => panic!("expected a dispatched request"),
    }
    assert_eq!(conn.buffered_len(), 0);
}

#[test]
fn engine_assembles_request_across_reads() {
    let mut conn = Connection::new();
    assert!(matches!(conn.on_data(b"POST /u HTTP/1.1\r\nConten"), Progress::NeedMore));
    assert!(matches!(conn.on_data(b"t-Length: 5\r\n\r\n"), Progress::NeedMore));
    assert!(matches!(conn.on_data(b"hel"), Progress::NeedMore));
    match conn.on_data(b"lo") {
        Progress::Dispatch(req) => {
            assert_eq!(req.content_length(), Some(5));
            assert_eq!(req.body().as_slice(), b"hello");
        }
        _ => panic!("expected a dispatched request"),
    }
    assert_eq!(conn.buffered_len(), 0);
}

#[test]
fn engine_keeps_excess_bytes_for_next_request() {
    let mut conn = Connection::new();
    let two = b"GET /a HTTP/1.1\r\n\r\nGET /b HTTP/1.1\r\n\r\n";
    match conn.on_data(two) {
        Progress::Dispatch(req) => assert_eq!(req.path(), "/a"),
        _ => panic!("expected the first request"),
    }
    assert!(conn.buffered_len() > 0);
    match conn.on_data(b"") {
        Progress::Dispatch(req) => assert_eq!(req.path(), "/b"),
        _ => panic!("expected the second request"),
    }
}

#[test]
fn oversized_input_rejected_with_413() {
    let mut conn = Connection::with_limit(32);
    // More than the cap arrives without ever forming a complete request.
    match conn.on_data(b"GET /aaaaaaaaaaaaaaaaaaaaaaaaaaaaaaaaaaaa HTTP/1.1\r\n") {
        Progress::Reject(resp) => {
            assert_eq!(resp.status(), StatusCode::PayloadTooLarge);
            let s = to_string(resp.into_bytes());
            assert!(s.starts_with("HTTP/1.1 413 Payload Too Large\r\n"));
            assert!(s.contains("Connection: close\r\n"));
        }
        _ => panic!("expected a 413 rejection"),
    }
}

#[test]
fn malformed_head_rejected_with_400() {
    let mut conn = Connection::new();
    match conn.on_data(b"NOT A REQUEST LINE AT ALL\r\n\r\n") {
        Progress::Reject(resp) => {
            assert_eq!(resp.status(), StatusCode::BadRequest);
            let s = to_string(resp.into_bytes());
            assert!(s.contains("Connection: close\r\n"));
        }
        _ => panic!("expected a 400 rejection"),
    }
}

// -- Middleware cursor -------------------------------------------------------

#[test]
fn empty_chain_is_exhausted_immediately() {
    let mut next: Next<u32> = Next::new(Vec::new());
    assert_eq!(next.advance(), None);
    let resp = Next::<u32>::fallback();
    assert_eq!(resp.status(), StatusCode::InternalServerError);
    let s = to_string(resp.into_bytes());
    assert!(s.starts_with("HTTP/1.1 500 Internal Server Error\r\n"));
}

#[test]
fn cursor_takes_each_position_once() {
    let mut next: Next<u32> = Next::new(vec![10, 20, 30]);
    assert_eq!(next.advance(), Some(0));
    assert_eq!(*next.handler(0), 10);
    assert_eq!(next.advance(), Some(1));
    assert_eq!(next.advance(), Some(2));
    assert_eq!(next.advance(), None);
    assert_eq!(next.advance(), None);
}

// -- CORS --------------------------------------------------------------------

fn parse_req(raw: &[u8]) -> Request {
    Request::parse(raw).unwrap().0
}

/// Runs one request through the CORS policy the way the middleware does,
/// counting how often the terminal handler runs.
fn run_with_cors(cors: &CorsMiddleware, req: &Request, handler_calls: &mut u32) -> Response {
    let decision = cors.check(req.headers().get("origin"), req.method());
    match decision {
        CorsDecision::Preflight(ao) => cors.preflight_response(&ao),
        CorsDecision::Decorate(ao) => {
            *handler_calls += 1;
            let mut resp = Response::new(StatusCode::Okay).body("handled");
            cors.apply_cors_headers(&mut resp, &ao);
            resp
        }
        CorsDecision::Forward => {
            *handler_calls += 1;
            Response::new(StatusCode::Okay).body("handled")
        }
    }
}

#[test]
fn preflight_never_reaches_handler() {
    let cors = CorsMiddleware::new();
    let req = parse_req(b"OPTIONS /api HTTP/1.1\r\nOrigin: https://example.com\r\n\r\n");
    let mut handler_calls: u32 = 0;
    let resp = run_with_cors(&cors, &req, &mut handler_calls);
    assert_eq!(handler_calls, 0);
    assert_eq!(resp.status(), StatusCode::NoContent);
    let s = to_string(resp.into_bytes());
    assert!(s.contains("Access-Control-Allow-Origin: *\r\n"));
    assert!(s.contains("Access-Control-Max-Age: 3600\r\n"));
}

#[test]
fn no_origin_passes_through_untouched() {
    let cors = CorsMiddleware::new();
    let req = parse_req(b"GET /api HTTP/1.1\r\n\r\n");
    let mut handler_calls: u32 = 0;
    let resp = run_with_cors(&cors, &req, &mut handler_calls);
    assert_eq!(handler_calls, 1);
    let s = to_string(resp.into_bytes());
    assert!(!s.contains("Access-Control-Allow-Origin"));
}

#[test]
fn cors_headers_applied_on_actual_request() {
    let cors = CorsMiddleware::new().allow_method("PATCH").allow_header("X-Request-ID");
    let req = parse_req(b"GET /api HTTP/1.1\r\nOrigin: https://a.example\r\n\r\n");
    let mut handler_calls: u32 = 0;
    let resp = run_with_cors(&cors, &req, &mut handler_calls);
    assert_eq!(handler_calls, 1);
    let s = to_string(resp.into_bytes());
    assert!(s.contains("Access-Control-Allow-Methods: GET, POST, PUT, DELETE, PATCH\r\n"));
    assert!(s.contains("Access-Control-Allow-Headers: Content-Type, Authorization, X-Request-ID\r\n"));
}

#[test]
fn wildcard_origin_does_not_vary() {
    // The default allow-list holds `*`; the wildcard answer never varies.
    let cors = CorsMiddleware::new();
    let req = parse_req(b"GET /api HTTP/1.1\r\nOrigin: https://a.example\r\n\r\n");
    let mut calls: u32 = 0;
    let resp = run_with_cors(&cors, &req, &mut calls);
    assert_eq!(calls, 1);
    let s = to_string(resp.into_bytes());
    assert!(s.contains("Access-Control-Allow-Origin: *\r\n"));
    assert!(!s.contains("Vary: Origin"));
}
