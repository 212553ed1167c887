//! Tests for path parameters, the per-request value store, and the
//! request context.

use rttp::context::{Context, ExtKind, ExtValue, Extensions, PathParams};
use rttp::Request;

fn get_request() -> Request {
    let raw = b"GET /users/42 HTTP/1.1\r\nHost: localhost\r\n\r\n";
    let (req, _) = Request::parse(raw).unwrap();
    req
}

// -- Extensions --------------------------------------------------------------

#[test]
fn extensions_insert_and_get() {
    let mut ext = Extensions::new();
    ext.insert(ExtValue::U32(42));
    assert_eq!(ext.get(ExtKind::U32), Some(&ExtValue::U32(42)));
}

#[test]
fn extensions_get_missing_returns_none() {
    let ext = Extensions::new();
    assert_eq!(ext.get(ExtKind::U32), None);
}

#[test]
fn extensions_insert_returns_previous_value() {
    let mut ext = Extensions::new();
    assert_eq!(ext.insert(ExtValue::U32(1)), None);
    assert_eq!(ext.insert(ExtValue::U32(2)), Some(ExtValue::U32(1)));
    assert_eq!(ext.get(ExtKind::U32), Some(&ExtValue::U32(2)));
}

#[test]
fn extensions_contains() {
    let mut ext = Extensions::new();
    assert!(!ext.contains(ExtKind::U32));
    ext.insert(ExtValue::U32(1));
    assert!(ext.contains(ExtKind::U32));
}

#[test]
fn extensions_get_mut() {
    let mut ext = Extensions::new();
    ext.insert(ExtValue::U32(10));
    *ext.get_mut(ExtKind::U32).unwrap() = ExtValue::U32(99);
    assert_eq!(ext.get(ExtKind::U32), Some(&ExtValue::U32(99)));
}

#[test]
fn extensions_remove() {
    let mut ext = Extensions::new();
    ext.insert(ExtValue::U32(7));
    assert_eq!(ext.remove(ExtKind::U32), Some(ExtValue::U32(7)));
    assert_eq!(ext.get(ExtKind::U32), None);
}

#[test]
fn extensions_remove_missing_returns_none() {
    let mut ext = Extensions::new();
    assert_eq!(ext.remove(ExtKind::U32), None);
}

#[test]
fn extensions_different_types_are_independent() {
    let mut ext = Extensions::new();
    ext.insert(ExtValue::U32(1));
    ext.insert(ExtValue::Text("hello".to_owned()));
    assert_eq!(ext.get(ExtKind::U32), Some(&ExtValue::U32(1)));
    assert_eq!(ext.get(ExtKind::Text), Some(&ExtValue::Text("hello".to_owned())));
    ext.remove(ExtKind::U32);
    assert_eq!(ext.get(ExtKind::U32), None);
    assert_eq!(ext.get(ExtKind::Text), Some(&ExtValue::Text("hello".to_owned())));
}

// -- PathParams --------------------------------------------------------------

#[test]
fn path_params_insert_and_get() {
    let mut p = PathParams::new();
    p.insert("id", "42");
    assert_eq!(p.get("id"), Some("42"));
}

#[test]
fn path_params_get_missing_returns_none() {
    let p = PathParams::new();
    assert_eq!(p.get("id"), None);
}

#[test]
fn path_params_get_mut_allows_replacement() {
    let mut p = PathParams::new();
    p.insert("id", "1");
    *p.get_mut("id").unwrap() = "99".to_owned();
    assert_eq!(p.get("id"), Some("99"));
}

#[test]
fn path_params_remove() {
    let mut p = PathParams::new();
    p.insert("id", "42");
    assert_eq!(p.remove("id"), Some("42".to_owned()));
    assert_eq!(p.get("id"), None);
}

#[test]
fn path_params_remove_missing_returns_none() {
    let mut p = PathParams::new();
    assert_eq!(p.remove("id"), None);
}

#[test]
fn path_params_insert_overwrites() {
    let mut p = PathParams::new();
    p.insert("id", "1");
    p.insert("id", "99");
    assert_eq!(p.get("id"), Some("99"));
}

// -- Context -----------------------------------------------------------------

#[test]
fn context_new_exposes_request() {
    let req = get_request();
    let ctx = Context::new(req);
    assert_eq!(ctx.request().path(), "/users/42");
}

#[test]
fn context_with_params_pre_populates() {
    let mut params = PathParams::new();
    params.insert("id", "42");
    let ctx = Context::with_params(get_request(), params);
    assert_eq!(ctx.params().get("id"), Some("42"));
}

#[test]
fn context_params_mut_allows_insertion() {
    let mut ctx = Context::new(get_request());
    ctx.params_mut().insert("slug", "hello-world");
    assert_eq!(ctx.params().get("slug"), Some("hello-world"));
}

#[test]
fn context_extensions_mut_allows_insertion() {
    let mut ctx = Context::new(get_request());
    ctx.extensions_mut().insert(ExtValue::U32(42));
    assert_eq!(ctx.extensions().get(ExtKind::U32), Some(&ExtValue::U32(42)));
}

#[test]
fn context_extensions_initially_empty() {
    let ctx = Context::new(get_request());
    assert!(!ctx.extensions().contains(ExtKind::U32));
}
