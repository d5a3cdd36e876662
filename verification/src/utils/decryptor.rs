//! AES-128-GCM opening of received datagrams.
use crate::exceptions::Exception;
use crate::utils::encryptor::{NONCE_LEN, TAG_LEN};
use vstd::prelude::*;

verus! {

/// What AES-128-GCM open returns for a 16-byte key, a 12-byte nonce, a
/// ciphertext and a 16-byte tag (empty aad): the plaintext when the tag
/// authenticates, nothing otherwise. A pure function of its arguments.
pub uninterp spec fn gcm_open(key: Seq<u8>, nonce: Seq<u8>, cipher: Seq<u8>, tag: Seq<u8>) -> Option<
    Seq<u8>,
>;

/// The outcome of decrypting with arbitrary argument lengths: lengths other
/// than the AES-128-GCM ones never authenticate.
pub open spec fn open_outcome(key: Seq<u8>, nonce: Seq<u8>, cipher: Seq<u8>, tag: Seq<u8>) -> Option<
    Seq<u8>,
> {
    if key.len() == 16 && nonce.len() == 12 && tag.len() == 16 {
        gcm_open(key, nonce, cipher, tag)
    } else {
        None
    }
}

/// Relies on ring's `LessSafeKey::open_in_place` with `AES_128_GCM` and
/// empty aad, which authenticates and decrypts deterministically; its
/// result is named `gcm_open`.
#[verifier::external_body]
fn aead_open(cipherbytes: Vec<u8>, tag: &[u8], aes_key: &[u8], nonce: &[u8]) -> (r: Result<
    Vec<u8>,
    Exception,
>)
    requires
        aes_key@.len() == 16,
        nonce@.len() == 12,
        tag@.len() == 16,
    ensures
        r matches Ok(p) ==> gcm_open(aes_key@, nonce@, cipherbytes@, tag@) == Some(p@),
        r is Err ==> gcm_open(aes_key@, nonce@, cipherbytes@, tag@) is None,
        r matches Err(e) ==> e matches Exception::DecryptError,
{
    let unbound = match ring::aead::UnboundKey::new(&ring::aead::AES_128_GCM, aes_key) {
        Ok(k) => k,
        Err(_) => return Err(Exception::DecryptError),
    };
    let key = ring::aead::LessSafeKey::new(unbound);
    let n = match ring::aead::Nonce::try_assume_unique_for_key(nonce) {
        Ok(n) => n,
        Err(_) => return Err(Exception::DecryptError),
    };
    let mut in_out = cipherbytes;
    in_out.extend_from_slice(tag);
    match key.open_in_place(n, ring::aead::Aad::empty(), &mut in_out) {
        Ok(plain) => Ok(plain.to_vec()),
        Err(_) => Err(Exception::DecryptError),
    }
}

/// Decrypt `cipherbytes` under `aes_key` with the given nonce and tag.
/// Succeeds exactly when the lengths are the AES-128-GCM ones and the tag
/// authenticates the ciphertext.
pub fn decrypt_bytes(cipherbytes: Vec<u8>, tag: &[u8], aes_key: &[u8], nonce: &[u8]) -> (r: Result<
    Vec<u8>,
    Exception,
>)
    ensures
        r is Ok <==> open_outcome(aes_key@, nonce@, cipherbytes@, tag@) is Some,
        r matches Ok(p) ==> open_outcome(aes_key@, nonce@, cipherbytes@, tag@) == Some(p@),
        r matches Err(e) ==> e matches Exception::DecryptError,
{
    if aes_key.len() != 16 || nonce.len() != NONCE_LEN || tag.len() != TAG_LEN {
        return Err(Exception::DecryptError);
    }
    aead_open(cipherbytes, tag, aes_key, nonce)
}

} // verus!
