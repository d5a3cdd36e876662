//! Handshake, traffic and the closed flag, driven without sockets: each
//! side's bytes are handed straight to the other.
use oblivion::exceptions::Exception;
use oblivion::models::client::build_connect_header;
use oblivion::models::packet::OedReader;
use oblivion::models::render::BaseResponse;
use oblivion::models::session::Session;

fn read_u32(wire: &[u8], at: &mut usize) -> u32 {
    let mut four = [0u8; 4];
    four.copy_from_slice(&wire[*at..*at + 4]);
    *at += 4;
    u32::from_be_bytes(four)
}

fn read_blob(wire: &[u8], at: &mut usize) -> Vec<u8> {
    let len = read_u32(wire, at) as usize;
    let blob = wire[*at..*at + len].to_vec();
    *at += len;
    blob
}

/// Run the whole handshake between an initiator and a responder, handing
/// each side's bytes to the other, and return the two open sessions.
fn handshake_pair(entrance: &[u8]) -> (Session, Session) {
    let header = build_connect_header(entrance);
    let mut client = Session::new_with_header(header).unwrap();
    let mut server = Session::new().unwrap();

    // Client -> server: length-prefixed header line.
    let first = client.first_hand_request().unwrap();
    let mut at = 0;
    let header_line = read_blob(&first, &mut at);
    assert_eq!(at, first.len());

    // Server parses the header and answers with its public key and salt.
    let oke_out = server
        .second_hand_begin(header_line, b"127.0.0.1".to_vec(), 7076)
        .unwrap();
    let mut at = 0;
    let server_public = read_blob(&oke_out, &mut at);
    let salt = read_blob(&oke_out, &mut at);
    assert_eq!(at, oke_out.len());
    assert_eq!(server_public.len(), 32);
    assert_eq!(salt.len(), 16);

    // Client derives the key and answers with its own public key.
    let reply = client.first_hand_finish(server_public, salt).unwrap();
    let mut at = 0;
    let client_public = read_blob(&reply, &mut at);
    assert_eq!(at, reply.len());

    // Server derives the key.
    server.second_hand_finish(client_public).unwrap();
    (client, server)
}

/// Split one outgoing message into its status flag and datagram bytes,
/// driving the incremental reader as a socket loop would.
fn split_message(wire: &[u8]) -> (u32, Vec<u8>) {
    let mut at = 0;
    let flag = read_u32(wire, &mut at);
    let mut reader = OedReader::new();
    loop {
        let need = reader.needed();
        if need == 0 {
            break;
        }
        let piece = wire[at..at + need].to_vec();
        at += need;
        if reader.feed(piece).unwrap() {
            break;
        }
    }
    assert!(reader.is_done());
    assert_eq!(at, wire.len());
    (flag, reader.take_wire())
}

#[test]
fn handshake_derives_equal_keys() {
    // Both peers of a correctly run handshake hold bitwise-equal keys.
    let (client, server) = handshake_pair(b"/echo");
    assert_eq!(client.aes_key(), server.aes_key());
}

#[test]
fn handshake_parses_request() {
    let (_, server) = handshake_pair(b"/echo");
    assert_eq!(server.header().clone(), b"CONNECT /echo Oblivion/2.0".to_vec());
    let request = server.request().as_ref().unwrap();
    assert_eq!(request.get_method().clone(), b"CONNECT".to_vec());
    assert_eq!(request.get_olps().clone(), b"/echo".to_vec());
    assert_eq!(server.get_ip(), b"127.0.0.1".to_vec());
}

#[test]
fn handshake_rejects_bad_header() {
    // The first frame "hello world" (two tokens, no slash) is refused and
    // nothing is sent back.
    let mut server = Session::new().unwrap();
    match server.second_hand_begin(b"hello world".to_vec(), b"127.0.0.1".to_vec(), 7076) {
        Err(Exception::InvalidHeader) => {},
        _ => panic!("expected an invalid-header failure"),
    }
    assert!(!server.closed());
}

#[test]
fn echo_round_trip() {
    // Client sends one message; the handler echoes it back as a terminal
    // message; the client sees identical bytes and flag 1.
    let (mut client, mut server) = handshake_pair(b"/echo");
    let payload = b"every byte back".to_vec();

    let out = client.send(payload.clone()).unwrap();
    let (flag, oed) = split_message(&out);
    assert_eq!(flag, 0);
    let got = server.recv(flag, &oed).unwrap();
    assert_eq!(got.content, payload);
    assert_eq!(got.flag, 0);

    let back = server.send_terminal(got.content).unwrap();
    let (flag, oed) = split_message(&back);
    assert_eq!(flag, 1);
    let answer = client.recv(flag, &oed).unwrap();
    assert_eq!(answer.content, payload);
    assert_eq!(answer.flag, 1);
    assert!(client.closed());
}

#[test]
fn large_payload_round_trip() {
    // A 1,000,000-byte all-zero payload is recovered exactly after the
    // chunked transfer.
    let (client, mut server) = handshake_pair(b"/bulk");
    let payload = vec![0u8; 1_000_000];
    let out = client.send(payload.clone()).unwrap();
    let (flag, oed) = split_message(&out);
    let got = server.recv(flag, &oed).unwrap();
    assert_eq!(got.content, payload);
}

#[test]
fn response_renders_text() {
    let (client, mut server) = handshake_pair(b"/welcome");
    let reply = BaseResponse::TextResponse(String::from("welcome in"));
    let out = server.response(reply).unwrap();
    let (flag, oed) = split_message(&out);
    let got = client_recv(client, flag, &oed);
    assert_eq!(got, b"welcome in".to_vec());
}

fn client_recv(mut client: Session, flag: u32, oed: &[u8]) -> Vec<u8> {
    client.recv(flag, oed).unwrap().content
}

#[test]
fn file_response_is_unsupported() {
    let (_, server) = handshake_pair(b"/file");
    let reply = BaseResponse::FileResponse(String::from("somewhere"));
    match server.response(reply) {
        Err(Exception::UnsupportedMethod) => {},
        _ => panic!("expected an unsupported-method failure"),
    }
}

#[test]
fn close_is_idempotent() {
    // close(close(S)) succeeds and observes closed == true.
    let (mut client, _) = handshake_pair(b"/done");
    client.close();
    assert!(client.closed());
    client.close();
    assert!(client.closed());
}

#[test]
fn closed_session_refuses_traffic() {
    // Any send or receive on a closed session fails with
    // connection-closed.
    let (mut client, mut server) = handshake_pair(b"/done");
    let out = client.send(b"one".to_vec()).unwrap();
    client.close();
    match client.send(b"two".to_vec()) {
        Err(Exception::ConnectionClosed) => {},
        _ => panic!("expected a connection-closed failure"),
    }
    let (flag, oed) = split_message(&out);
    server.close();
    match server.recv(flag, &oed) {
        Err(Exception::ConnectionClosed) => {},
        _ => panic!("expected a connection-closed failure"),
    }
}

#[test]
fn fresh_session_refuses_traffic() {
    let mut unopened = Session::new().unwrap();
    match unopened.send(b"early".to_vec()) {
        Err(Exception::ConnectionClosed) => {},
        _ => panic!("expected a connection-closed failure"),
    }
    match unopened.recv(0, b"") {
        Err(Exception::ConnectionClosed) => {},
        _ => panic!("expected a connection-closed failure"),
    }
}

#[test]
fn tampered_message_fails_decrypt() {
    let (client, mut server) = handshake_pair(b"/tamper");
    let out = client.send(b"sealed".to_vec()).unwrap();
    let (flag, mut oed) = split_message(&out);
    let last = oed.len() - 5;
    oed[last] ^= 0xff;
    match server.recv(flag, &oed) {
        Err(Exception::DecryptError) => {},
        _ => panic!("expected a decrypt failure"),
    }
    assert!(!server.closed());
}
