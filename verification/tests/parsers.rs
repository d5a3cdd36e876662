//! Header and endpoint grammar behaviour.
use oblivion::exceptions::Exception;
use oblivion::models::client::build_connect_header;
use oblivion::utils::parser::{OblivionPath, OblivionRequest};

#[test]
fn header_parses_three_tokens() {
    let q = OblivionRequest::new(b"CONNECT /test Oblivion/2.0").unwrap();
    assert_eq!(q.get_method().clone(), b"CONNECT".to_vec());
    assert_eq!(q.get_olps().clone(), b"/test".to_vec());
    assert_eq!(q.get_protocol().clone(), b"Oblivion".to_vec());
    assert_eq!(q.get_version().clone(), b"2.0".to_vec());
}

#[test]
fn header_allows_surrounding_whitespace() {
    let q = OblivionRequest::new(b"  GET\t/a/b  Oblivion/2.0 ").unwrap();
    assert_eq!(q.get_method().clone(), b"GET".to_vec());
    assert_eq!(q.get_olps().clone(), b"/a/b".to_vec());
}

#[test]
fn header_two_tokens_fails() {
    // The first frame "hello world" has two tokens and no slash.
    match OblivionRequest::new(b"hello world") {
        Err(Exception::InvalidHeader) => {},
        _ => panic!("expected an invalid-header failure"),
    }
}

#[test]
fn header_four_tokens_fails() {
    assert!(OblivionRequest::new(b"CONNECT /x Oblivion/2.0 extra").is_err());
}

#[test]
fn header_no_slash_fails() {
    assert!(OblivionRequest::new(b"CONNECT /x Oblivion2.0").is_err());
}

#[test]
fn header_two_slashes_fails() {
    assert!(OblivionRequest::new(b"CONNECT /x Obli/vion/2.0").is_err());
}

#[test]
fn header_empty_fails() {
    assert!(OblivionRequest::new(b"").is_err());
    assert!(OblivionRequest::new(b"   ").is_err());
}

#[test]
fn header_remote_peer_attaches() {
    let mut q = OblivionRequest::new(b"CONNECT / Oblivion/2.0").unwrap();
    q.set_remote_peer(b"127.0.0.1".to_vec(), 813);
    assert_eq!(q.get_ip().clone(), b"127.0.0.1".to_vec());
}

#[test]
fn connect_header_builds_and_parses() {
    let header = build_connect_header(b"/welcome");
    assert_eq!(header, b"CONNECT /welcome Oblivion/2.0".to_vec());
    let q = OblivionRequest::new(&header).unwrap();
    assert_eq!(q.get_method().clone(), b"CONNECT".to_vec());
    assert_eq!(q.get_olps().clone(), b"/welcome".to_vec());
}

#[test]
fn endpoint_full_form() {
    let entrance = OblivionPath::new(b"oblivion://127.0.0.1:813/test").unwrap();
    assert_eq!(entrance.get_protocol().clone(), b"oblivion".to_vec());
    assert_eq!(entrance.get_host().clone(), b"127.0.0.1".to_vec());
    assert_eq!(entrance.get_port().clone(), b"813".to_vec());
    assert_eq!(entrance.get_entrance().clone(), b"/test".to_vec());
}

#[test]
fn endpoint_defaults() {
    let bare = OblivionPath::new(b"127.0.0.1").unwrap();
    assert_eq!(bare.get_host().clone(), b"127.0.0.1".to_vec());
    assert_eq!(bare.get_port().clone(), b"80".to_vec());
    assert_eq!(bare.get_entrance().clone(), b"/".to_vec());

    let with_port = OblivionPath::new(b"example.test:7076").unwrap();
    assert_eq!(with_port.get_port().clone(), b"7076".to_vec());
    assert_eq!(with_port.get_entrance().clone(), b"/".to_vec());

    let with_path = OblivionPath::new(b"example.test/echo").unwrap();
    assert_eq!(with_path.get_port().clone(), b"80".to_vec());
    assert_eq!(with_path.get_entrance().clone(), b"/echo".to_vec());
}

#[test]
fn endpoint_bad_forms_fail() {
    match OblivionPath::new(b"") {
        Err(Exception::InvalidOblivion) => {},
        _ => panic!("expected an invalid-endpoint failure"),
    }
    assert!(OblivionPath::new(b"oblivion://").is_err());
    assert!(OblivionPath::new(b"host:").is_err());
    assert!(OblivionPath::new(b"host:80x").is_err());
    assert!(OblivionPath::new(b"host:abc").is_err());
}

#[test]
fn endpoint_writes_canonical_form() {
    let bare = OblivionPath::new(b"127.0.0.1").unwrap();
    assert_eq!(bare.to_bytes(), b"oblivion://127.0.0.1:80/".to_vec());
    let full = OblivionPath::new(b"oblivion://127.0.0.1:813/test").unwrap();
    assert_eq!(full.to_bytes(), b"oblivion://127.0.0.1:813/test".to_vec());
}

#[test]
fn endpoint_round_trip() {
    // Parsing, writing back out and parsing again keeps every part.
    let inputs: [&[u8]; 4] = [
        b"oblivion://127.0.0.1:813/test",
        b"127.0.0.1",
        b"example.test:7076",
        b"example.test/a/b/",
    ];
    for raw in inputs {
        let first = OblivionPath::new(raw).unwrap();
        let written = first.to_bytes();
        let second = OblivionPath::new(&written).unwrap();
        assert_eq!(first.get_host(), second.get_host());
        assert_eq!(first.get_port(), second.get_port());
        assert_eq!(first.get_entrance(), second.get_entrance());
    }
}
