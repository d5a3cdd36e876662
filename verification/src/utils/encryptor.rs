//! AES-128-GCM sealing of outgoing datagrams.
use crate::exceptions::Exception;
use crate::utils::decryptor::gcm_open;
use crate::utils::generator::random_bytes;
use vstd::prelude::*;
use vstd::utf8::encode_utf8;

verus! {

/// Largest plaintext accepted for one datagram, the defensive bound that
/// receivers enforce on an aggregated ciphertext.
pub const MAX_OED_LEN: usize = 0x0100_0000;

/// Byte length of an AES-128-GCM nonce.
pub const NONCE_LEN: usize = 12;

/// Byte length of an AES-128-GCM authentication tag.
pub const TAG_LEN: usize = 16;

/// Relies on ring's `LessSafeKey::seal_in_place_separate_tag` with
/// `AES_128_GCM` and empty aad: it encrypts in place, returns the 16-byte
/// tag, preserves the length, and cannot fail below the algorithm's input
/// bound. Opening its output with the same key and nonce returns the
/// plaintext: that is the authenticated-encryption round trip.
#[verifier::external_body]
fn aead_seal(data: Vec<u8>, aes_key: &[u8], nonce: &[u8]) -> (r: Result<(Vec<u8>, Vec<u8>), Exception>)
    requires
        aes_key@.len() == 16,
        nonce@.len() == 12,
        data@.len() <= MAX_OED_LEN,
    ensures
        r is Ok,
        r matches Ok(p) ==> p.0@.len() == data@.len() && p.1@.len() == 16 && gcm_open(
            aes_key@,
            nonce@,
            p.0@,
            p.1@,
        ) == Some(data@),
{
    let unbound = match ring::aead::UnboundKey::new(&ring::aead::AES_128_GCM, aes_key) {
        Ok(k) => k,
        Err(_) => return Err(Exception::EncryptError),
    };
    let key = ring::aead::LessSafeKey::new(unbound);
    let n = match ring::aead::Nonce::try_assume_unique_for_key(nonce) {
        Ok(n) => n,
        Err(_) => return Err(Exception::EncryptError),
    };
    let mut in_out = data;
    match key.seal_in_place_separate_tag(n, ring::aead::Aad::empty(), &mut in_out) {
        Ok(tag) => Ok((in_out, tag.as_ref().to_vec())),
        Err(_) => Err(Exception::EncryptError),
    }
}

/// Encrypt binary data under `aes_key` with a fresh random nonce.
/// Returns (ciphertext, tag, nonce).
pub fn encrypt_bytes(data: Vec<u8>, aes_key: &[u8]) -> (r: Result<
    (Vec<u8>, Vec<u8>, Vec<u8>),
    Exception,
>)
    ensures
        r matches Ok(p) ==> {
            &&& aes_key@.len() == 16
            &&& data@.len() <= MAX_OED_LEN
            &&& p.0@.len() == data@.len()
            &&& p.1@.len() == 16
            &&& p.2@.len() == 12
            &&& gcm_open(aes_key@, p.2@, p.0@, p.1@) == Some(data@)
        },
        aes_key@.len() != 16 ==> (r matches Err(e) && e matches Exception::EncryptError),
        aes_key@.len() == 16 && data@.len() > MAX_OED_LEN ==> (r matches Err(e) && e matches
            Exception::DataTooLarge { size } && size == data@.len()),
        r matches Err(e) ==> {
            &&& (e matches Exception::DataTooLarge { .. } ==> data@.len() > MAX_OED_LEN)
            &&& (e matches Exception::EncryptError || e matches Exception::DataTooLarge { .. })
        },
{
    if aes_key.len() != 16 {
        return Err(Exception::EncryptError);
    }
    if data.len() > MAX_OED_LEN {
        return Err(Exception::DataTooLarge { size: data.len() });
    }
    let nonce = match random_bytes(NONCE_LEN) {
        Some(v) => v,
        None => {
            return Err(Exception::EncryptError);
        },
    };
    match aead_seal(data, aes_key, nonce.as_slice()) {
        Ok((cipher, tag)) => Ok((cipher, tag, nonce)),
        Err(e) => Err(e),
    }
}

/// Encrypt plaintext (its UTF-8 bytes) under `aes_key` with a fresh random
/// nonce. Returns (ciphertext, tag, nonce).
pub fn encrypt_plaintext(string: String, aes_key: &[u8]) -> (r: Result<
    (Vec<u8>, Vec<u8>, Vec<u8>),
    Exception,
>)
    ensures
        r matches Ok(p) ==> {
            &&& aes_key@.len() == 16
            &&& p.0@.len() == encode_utf8(string@).len()
            &&& p.0@.len() <= MAX_OED_LEN
            &&& p.1@.len() == 16
            &&& p.2@.len() == 12
            &&& gcm_open(aes_key@, p.2@, p.0@, p.1@) == Some(encode_utf8(string@))
        },
        r matches Err(e) ==> {
            &&& (e matches Exception::DataTooLarge { .. } ==> encode_utf8(string@).len()
                > MAX_OED_LEN)
            &&& (e matches Exception::EncryptError || e matches Exception::DataTooLarge { .. })
        },
{
    let data = string.as_str().as_bytes_vec();
    encrypt_bytes(data, aes_key)
}

} // verus!
