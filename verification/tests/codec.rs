//! Tests for request parsing and response serialization.

use rttp::request::RequestError;
use rttp::{Request, Response, StatusCode};

fn to_string(bytes: Vec<u8>) -> String {
    String::from_utf8(bytes).unwrap()
}

// -- Request parsing ---------------------------------------------------------

#[test]
fn parse_simple_get() {
    let raw = b"GET / HTTP/1.1\r\nHost: localhost\r\n\r\n";
    let (req, offset) = Request::parse(raw).unwrap();
    assert_eq!(req.method().as_str(), "GET");
    assert_eq!(req.path(), "/");
    assert_eq!(req.version(), 1);
    assert_eq!(req.headers().get("host"), Some("localhost"));
    assert_eq!(offset, raw.len()); // no body
}

#[test]
fn parse_query_string() {
    let raw = b"GET /search?q=rust&page=2 HTTP/1.1\r\nHost: example.com\r\n\r\n";
    let (req, _) = Request::parse(raw).unwrap();
    assert_eq!(req.path(), "/search");
    assert_eq!(req.query_string(), Some("q=rust&page=2"));
    assert_eq!(req.query_param("q"), Some("rust"));
    assert_eq!(req.query_param("page"), Some("2"));
}

#[test]
fn incomplete_request() {
    let raw = b"GET / HTTP/1.1\r\nHost:";
    assert!(matches!(Request::parse(raw), Err(RequestError::Incomplete)));
}

#[test]
fn keep_alive_http11_default() {
    let raw = b"GET / HTTP/1.1\r\nHost: localhost\r\n\r\n";
    let (req, _) = Request::parse(raw).unwrap();
    assert!(req.is_keep_alive());
}

#[test]
fn request_connection_close() {
    let raw = b"GET / HTTP/1.1\r\nHost: localhost\r\nConnection: close\r\n\r\n";
    let (req, _) = Request::parse(raw).unwrap();
    assert!(!req.is_keep_alive());
}

#[test]
fn content_length() {
    let raw = b"POST / HTTP/1.1\r\nHost: localhost\r\nContent-Length: 5\r\n\r\nhello";
    let (req, body_offset) = Request::parse(raw).unwrap();
    assert_eq!(req.content_length(), Some(5));
    assert_eq!(&raw[body_offset..], b"hello");
}

#[test]
fn keep_alive_http10_default_close() {
    let raw = b"GET / HTTP/1.0\r\nHost: localhost\r\n\r\n";
    let (req, _) = Request::parse(raw).unwrap();
    assert_eq!(req.version(), 0);
    assert!(!req.is_keep_alive());
}

#[test]
fn keep_alive_http10_explicit() {
    let raw = b"GET / HTTP/1.0\r\nConnection: Keep-Alive\r\n\r\n";
    let (req, _) = Request::parse(raw).unwrap();
    assert!(req.is_keep_alive());
}

#[test]
fn malformed_request_line_is_parse_error() {
    let raw = b"NONSENSE\r\nHost: localhost\r\n\r\n";
    assert!(matches!(Request::parse(raw), Err(RequestError::Parse)));
}

#[test]
fn bad_version_is_parse_error() {
    let raw = b"GET / HTTP/2.0\r\n\r\n";
    assert!(matches!(Request::parse(raw), Err(RequestError::Parse)));
}

#[test]
fn empty_header_name_is_parse_error() {
    let raw = b"GET / HTTP/1.1\r\n: nameless\r\n\r\n";
    assert!(matches!(Request::parse(raw), Err(RequestError::Parse)));
}

#[test]
fn body_is_copied_from_offset() {
    let raw = b"POST /u HTTP/1.1\r\nContent-Length: 3\r\n\r\nabc";
    let (req, _) = Request::parse(raw).unwrap();
    assert_eq!(req.body().as_slice(), b"abc");
}

#[test]
fn header_value_is_trimmed() {
    let raw = b"GET / HTTP/1.1\r\nHost:   spaced.example.com  \r\n\r\n";
    let (req, _) = Request::parse(raw).unwrap();
    assert_eq!(req.headers().get("host"), Some("spaced.example.com"));
}

#[test]
fn query_plus_decodes_to_space() {
    let raw = b"GET /s?q=hello+world HTTP/1.1\r\n\r\n";
    let (req, _) = Request::parse(raw).unwrap();
    assert_eq!(req.query_param("q"), Some("hello world"));
}

#[test]
fn query_missing_value_defaults_empty() {
    let raw = b"GET /s?flag&x=1 HTTP/1.1\r\n\r\n";
    let (req, _) = Request::parse(raw).unwrap();
    assert_eq!(req.query_param("flag"), Some(""));
    assert_eq!(req.query_param("x"), Some("1"));
}

#[test]
fn query_repeated_key_last_wins() {
    let raw = b"GET /s?a=1&a=2 HTTP/1.1\r\n\r\n";
    let (req, _) = Request::parse(raw).unwrap();
    assert_eq!(req.query_param("a"), Some("2"));
    assert_eq!(req.query_string(), Some("a=1&a=2"));
}

#[test]
fn custom_method_is_kept() {
    let raw = b"PURGE /cache HTTP/1.1\r\n\r\n";
    let (req, _) = Request::parse(raw).unwrap();
    assert_eq!(req.method().as_str(), "PURGE");
    assert!(!req.method().is_safe());
}

#[test]
fn too_many_headers_is_parse_error() {
    let mut raw: Vec<u8> = b"GET / HTTP/1.1\r\n".to_vec();
    for i in 0..65 {
        raw.extend_from_slice(format!("X-H{}: v\r\n", i).as_bytes());
    }
    raw.extend_from_slice(b"\r\n");
    assert!(matches!(Request::parse(&raw), Err(RequestError::Parse)));
}

// -- Response serialization --------------------------------------------------

#[test]
fn simple_ok_response() {
    let r = Response::new(StatusCode::Okay).body("Hello");
    let s = to_string(r.into_bytes());
    assert!(s.starts_with("HTTP/1.1 200 OK\r\n"));
    assert!(s.contains("Content-Length: 5\r\n"));
    assert!(s.ends_with("\r\n\r\nHello"));
}

#[test]
fn custom_header() {
    let r = Response::new(StatusCode::Okay).header("X-Request-Id", "abc-123").body("ok");
    let s = to_string(r.into_bytes());
    assert!(s.contains("X-Request-Id: abc-123\r\n"));
}

#[test]
fn no_body_no_content_type() {
    let r = Response::new(StatusCode::NoContent);
    let s = to_string(r.into_bytes());
    assert!(!s.contains("Content-Type"));
    assert!(s.contains("Content-Length: 0\r\n"));
}

#[test]
fn response_connection_close() {
    let r = Response::new(StatusCode::Okay).keep_alive(false);
    let s = to_string(r.into_bytes());
    assert!(s.contains("Connection: close\r\n"));
}

#[test]
fn not_found() {
    let r = Response::new(StatusCode::NotFound).body("Not Found");
    let s = to_string(r.into_bytes());
    assert!(s.starts_with("HTTP/1.1 404 Not Found\r\n"));
}

#[test]
fn default_content_type_added_for_body() {
    let r = Response::new(StatusCode::Okay).body("x");
    let s = to_string(r.into_bytes());
    assert!(s.contains("Content-Type: text/plain; charset=utf-8\r\n"));
}

#[test]
fn explicit_content_type_not_overridden() {
    let r = Response::new(StatusCode::Okay).header("Content-Type", "application/json").body(
        "{}",
    );
    let s = to_string(r.into_bytes());
    assert!(s.contains("Content-Type: application/json\r\n"));
    assert!(!s.contains("text/plain"));
}

#[test]
fn content_length_matches_exact_body_bytes() {
    let body: Vec<u8> = vec![0, 1, 2, 3, 254, 255];
    let r = Response::new(StatusCode::Okay).body_bytes(&body);
    let out = r.into_bytes();
    let text_end = out.len() - body.len();
    assert_eq!(&out[text_end..], body.as_slice());
    let head = String::from_utf8(out[..text_end].to_vec()).unwrap();
    assert!(head.contains("Content-Length: 6\r\n"));
    // Content-Length is the last header before the blank line.
    assert!(head.ends_with("Content-Length: 6\r\n\r\n"));
}

#[test]
fn status_line_carries_canonical_reason() {
    assert_eq!(StatusCode::PayloadTooLarge.as_u16(), 413);
    assert_eq!(StatusCode::PayloadTooLarge.canonical_reason(), "Payload Too Large");
    let r = Response::new(StatusCode::ServiceUnavailable);
    let s = to_string(r.into_bytes());
    assert!(s.starts_with("HTTP/1.1 503 Service Unavailable\r\n"));
}
