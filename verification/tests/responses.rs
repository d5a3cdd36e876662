//! Response equality semantics.
use oblivion::models::client::Response;

#[test]
fn responses_equal_by_parts() {
    let a = Response::new(None, b"abc".to_vec(), None, 0);
    let b = Response::new(None, b"abc".to_vec(), None, 0);
    assert!(a == b);
    let c = Response::new(None, b"abd".to_vec(), None, 0);
    assert!(a != c);
    let d = Response::new(None, b"abc".to_vec(), None, 1);
    assert!(a != d);
}

#[test]
fn response_entrance_ignores_trailing_slash() {
    let a = Response::new(None, Vec::new(), Some(String::from("/w/")), 0);
    let b = Response::new(None, Vec::new(), Some(String::from("/w")), 0);
    assert!(a == b);
    let c = Response::new(None, Vec::new(), Some(String::from("/x")), 0);
    assert!(a != c);
}

#[test]
fn response_without_entrance_only_equals_same() {
    let a = Response::new(None, Vec::new(), None, 0);
    let b = Response::new(None, Vec::new(), Some(String::from("/w")), 0);
    assert!(a != b);
    assert!(b != a);
}

#[test]
fn response_headers_compared() {
    let a = Response::new(Some(String::from("h")), Vec::new(), None, 0);
    let b = Response::new(Some(String::from("h")), Vec::new(), None, 0);
    let c = Response::new(Some(String::from("g")), Vec::new(), None, 0);
    assert!(a == b);
    assert!(a != c);
}
