//! Tests for the case-insensitive header map.

use rttp::Headers;

#[test]
fn case_insensitive_get() {
    let mut h = Headers::new();
    h.insert("Content-Type", "text/plain");
    assert_eq!(h.get("content-type"), Some("text/plain"));
    assert_eq!(h.get("CONTENT-TYPE"), Some("text/plain"));
    assert_eq!(h.get("Content-Type"), Some("text/plain"));
}

#[test]
fn multi_value() {
    let mut h = Headers::new();
    h.insert("Set-Cookie", "a=1");
    h.insert("Set-Cookie", "b=2");
    let vals: Vec<_> = h.get_all("set-cookie");
    assert_eq!(vals, vec!["a=1", "b=2"]);
}

#[test]
fn remove() {
    let mut h = Headers::new();
    h.insert("X-Foo", "bar");
    h.insert("X-Foo", "baz");
    assert!(h.remove("x-foo"));
    assert!(h.is_empty());
    assert!(!h.remove("x-foo")); // already gone
}

#[test]
fn contains() {
    let mut h = Headers::new();
    h.insert("Authorization", "Bearer token");
    assert!(h.contains("authorization"));
    assert!(!h.contains("x-missing"));
}

#[test]
fn get_all_is_case_insensitive() {
    let mut h = Headers::new();
    h.insert("X-Tag", "one");
    h.insert("x-tag", "two");
    h.insert("X-TAG", "three");
    assert_eq!(h.get_all("X-Tag"), vec!["one", "two", "three"]);
    assert_eq!(h.get_all("x-tAg"), vec!["one", "two", "three"]);
}

#[test]
fn insertion_order_preserved() {
    let mut h = Headers::new();
    h.insert("A", "1");
    h.insert("B", "2");
    h.insert("A", "3");
    assert_eq!(h.iter(), vec![("A", "1"), ("B", "2"), ("A", "3")]);
    assert_eq!(h.len(), 3);
}

#[test]
fn get_returns_first_match() {
    let mut h = Headers::new();
    h.insert("X-Dup", "first");
    h.insert("X-DUP", "second");
    assert_eq!(h.get("x-dup"), Some("first"));
}

#[test]
fn remove_is_case_insensitive_and_total() {
    let mut h = Headers::new();
    h.insert("One", "1");
    h.insert("ONE", "2");
    h.insert("Two", "3");
    assert!(h.remove("one"));
    assert_eq!(h.len(), 1);
    assert_eq!(h.get("two"), Some("3"));
}
