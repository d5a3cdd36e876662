//! Framing and datagram round trips.
use oblivion::exceptions::Exception;
use oblivion::models::packet::{OedReader, OED, OSC};
use oblivion::utils::decryptor::decrypt_bytes;
use oblivion::utils::encryptor::{encrypt_bytes, encrypt_plaintext};
use oblivion::utils::parser::length;

fn key() -> [u8; 16] {
    [7u8; 16]
}

#[test]
fn length_announces_size() {
    let vec = b"fw4rg45245ygergeqwrgqwerg342rg342gjisdu".to_vec();
    assert_eq!((39 as u32).to_be_bytes(), length(&vec).unwrap());
}

#[test]
fn length_rejects_oversize() {
    let big = vec![0u8; 2049];
    match length(&big) {
        Err(Exception::DataTooLarge { size }) => assert_eq!(size, 2049),
        _ => panic!("expected a data-too-large failure"),
    }
}

#[test]
fn osc_round_trip() {
    let osc = OSC::from_u32(0x01020304);
    let bytes = osc.to_bytes();
    assert_eq!(bytes, vec![1u8, 2, 3, 4]);
    let back = OSC::from_bytes(&bytes).unwrap();
    assert_eq!(back.status_code, 0x01020304);
    assert!(OSC::from_bytes(&bytes[..3]).is_err());
}

#[test]
fn encrypt_decrypt_round_trip() {
    let data = b"the quiet of the archive".to_vec();
    let (cipher, tag, nonce) = encrypt_bytes(data.clone(), &key()).unwrap();
    assert_eq!(cipher.len(), data.len());
    assert_eq!(tag.len(), 16);
    assert_eq!(nonce.len(), 12);
    let plain = decrypt_bytes(cipher, &tag, &key(), &nonce).unwrap();
    assert_eq!(plain, data);
}

#[test]
fn decrypt_rejects_tampering() {
    let data = b"untouched".to_vec();
    let (mut cipher, tag, nonce) = encrypt_bytes(data, &key()).unwrap();
    cipher[0] ^= 1;
    match decrypt_bytes(cipher, &tag, &key(), &nonce) {
        Err(Exception::DecryptError) => {},
        _ => panic!("expected a decrypt failure"),
    }
}

#[test]
fn encrypt_plaintext_round_trip() {
    let (cipher, tag, nonce) = encrypt_plaintext(String::from("hello world"), &key()).unwrap();
    let plain = decrypt_bytes(cipher, &tag, &key(), &nonce).unwrap();
    assert_eq!(plain, b"hello world".to_vec());
}

#[test]
fn oed_round_trip_small() {
    let data = b"a small message".to_vec();
    let mut sender = OED::new(&key());
    sender.from_bytes(data.clone()).unwrap();
    let wire = sender.to_wire().unwrap();
    let mut receiver = OED::new(&key());
    receiver.from_wire(&wire).unwrap();
    assert_eq!(receiver.get_data().clone(), data);
    assert_eq!(receiver.take(), data);
}

#[test]
fn oed_round_trip_empty() {
    let mut sender = OED::new(&key());
    sender.from_bytes(Vec::new()).unwrap();
    let wire = sender.to_wire().unwrap();
    let mut receiver = OED::new(&key());
    receiver.from_wire(&wire).unwrap();
    assert_eq!(receiver.take(), Vec::<u8>::new());
}

#[test]
fn oed_round_trip_string() {
    let mut sender = OED::new(&key());
    sender.from_json_or_string(String::from("{\"status\": true}")).unwrap();
    let wire = sender.to_wire().unwrap();
    let mut receiver = OED::new(&key());
    receiver.from_wire(&wire).unwrap();
    assert_eq!(receiver.take(), b"{\"status\": true}".to_vec());
}

#[test]
fn oed_wrong_key_fails() {
    let mut sender = OED::new(&key());
    sender.from_bytes(b"secret".to_vec()).unwrap();
    let wire = sender.to_wire().unwrap();
    let other = [8u8; 16];
    let mut receiver = OED::new(&other);
    match receiver.from_wire(&wire) {
        Err(Exception::DecryptError) => {},
        _ => panic!("expected a decrypt failure under the wrong key"),
    }
}

#[test]
fn oed_truncated_wire_fails() {
    let mut sender = OED::new(&key());
    sender.from_bytes(b"cut short".to_vec()).unwrap();
    let wire = sender.to_wire().unwrap();
    let mut receiver = OED::new(&key());
    match receiver.from_wire(&wire[..wire.len() - 1]) {
        Err(Exception::ConnectionClosed) => {},
        _ => panic!("expected a connection-closed failure"),
    }
}

#[test]
fn oed_oversize_nonce_prefix_fails() {
    // A frame that announces a 4096-byte nonce breaks the frame bound.
    let mut wire = Vec::new();
    wire.extend_from_slice(&4096u32.to_be_bytes());
    wire.extend_from_slice(&[0u8; 8]);
    let mut receiver = OED::new(&key());
    match receiver.from_wire(&wire) {
        Err(Exception::DataTooLarge { .. }) => {},
        _ => panic!("expected a data-too-large failure"),
    }
}

#[test]
fn oed_header_layout() {
    let mut sender = OED::new(&key());
    sender.from_bytes(b"xyz".to_vec()).unwrap();
    let header = sender.plain_data().unwrap();
    // len(nonce) || nonce || len(tag) || tag
    assert_eq!(&header[..4], &12u32.to_be_bytes());
    assert_eq!(&header[16..20], &16u32.to_be_bytes());
    assert_eq!(header.len(), 4 + 12 + 4 + 16);
    let wire = sender.to_wire().unwrap();
    assert_eq!(&wire[..36], &header[..]);
    // one chunk of three bytes, then the stop flag
    assert_eq!(&wire[36..40], &3u32.to_be_bytes());
    assert_eq!(&wire[43..47], &0u32.to_be_bytes());
    assert_eq!(wire.len(), 47);
}

fn reader_drive(wire: &[u8]) -> (OedReader, usize) {
    let mut reader = OedReader::new();
    let mut at = 0;
    loop {
        let need = reader.needed();
        if need == 0 {
            break;
        }
        let piece = wire[at..at + need].to_vec();
        at += need;
        if reader.feed(piece).unwrap() {
            break;
        }
    }
    (reader, at)
}

#[test]
fn reader_reassembles_large_payload() {
    // A 1,000,000-byte all-zero payload survives the chunked transfer.
    let payload = vec![0u8; 1_000_000];
    let mut sender = OED::new(&key());
    sender.from_bytes(payload.clone()).unwrap();
    let wire = sender.to_wire().unwrap();
    let (reader, consumed) = reader_drive(&wire);
    assert!(reader.is_done());
    assert_eq!(consumed, wire.len());
    let image = reader.take_wire();
    assert_eq!(image, wire);
    let mut receiver = OED::new(&key());
    receiver.from_wire(&image).unwrap();
    assert_eq!(receiver.take(), payload);
}

#[test]
fn reader_rejects_oversize_chunk() {
    let mut wire = Vec::new();
    wire.extend_from_slice(&12u32.to_be_bytes());
    wire.extend_from_slice(&[0u8; 12]);
    wire.extend_from_slice(&16u32.to_be_bytes());
    wire.extend_from_slice(&[0u8; 16]);
    wire.extend_from_slice(&0x0200_0000u32.to_be_bytes());
    let mut reader = OedReader::new();
    let mut at = 0;
    let mut failed = false;
    while reader.needed() > 0 {
        let need = reader.needed();
        let piece = wire[at..at + need].to_vec();
        at += need;
        match reader.feed(piece) {
            Ok(true) => break,
            Ok(false) => {},
            Err(Exception::DataTooLarge { .. }) => {
                failed = true;
                break;
            },
            Err(_) => panic!("expected a data-too-large failure"),
        }
    }
    assert!(failed);
}
