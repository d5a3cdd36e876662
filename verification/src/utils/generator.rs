//! Key material: ephemeral X25519 key pairs, random salts, and the
//! HKDF-SHA-256 derivation of the 16-byte session key.
use crate::exceptions::Exception;
use vstd::prelude::*;

verus! {

/// Byte length of a derived session key, of a salt, and of an AES-128 key.
pub const SESSION_KEY_LEN: usize = 16;

#[verifier::external_type_specification]
#[verifier::external_body]
pub struct ExEphemeralPrivateKey(ring::agreement::EphemeralPrivateKey);

/// The 16 bytes that HKDF-SHA-256 derives from a shared secret and a salt
/// (empty info). A pure function of its two arguments.
pub uninterp spec fn hkdf16(secret: Seq<u8>, salt: Seq<u8>) -> Seq<u8>;

/// Relies on ring's `SystemRandom::fill`: on success the buffer holds `n`
/// fresh random bytes. Nothing is promised of their values.
#[verifier::external_body]
pub(crate) fn random_bytes(n: usize) -> (r: Option<Vec<u8>>)
    ensures
        r matches Some(v) ==> v@.len() == n,
{
    let rng = ring::rand::SystemRandom::new();
    let mut bytes = vec![0u8; n];
    match ring::rand::SecureRandom::fill(&rng, &mut bytes) {
        Ok(()) => Some(bytes),
        Err(_) => None,
    }
}

/// Create an ephemeral X25519 key pair.
///
/// Relies on ring's `EphemeralPrivateKey::generate` and
/// `compute_public_key` with the X25519 algorithm, whose public keys are
/// 32 bytes long. The pair is random: nothing is promised of its values.
#[verifier::external_body]
pub fn generate_key_pair() -> (r: Result<
    (ring::agreement::EphemeralPrivateKey, Vec<u8>),
    Exception,
>)
    ensures
        r matches Ok(p) ==> p.1@.len() == 32,
        r matches Err(e) ==> e matches Exception::KeyAgreementError,
{
    let rng = ring::rand::SystemRandom::new();
    let private_key = match ring::agreement::EphemeralPrivateKey::generate(
        &ring::agreement::X25519,
        &rng,
    ) {
        Ok(k) => k,
        Err(_) => return Err(Exception::KeyAgreementError),
    };
    match private_key.compute_public_key() {
        Ok(public_key) => Ok((private_key, public_key.as_ref().to_vec())),
        Err(_) => Err(Exception::KeyAgreementError),
    }
}

/// An X25519 shared secret, from which session keys are derived.
pub struct SharedKey {
    shared_key: Vec<u8>,
}

impl SharedKey {
    /// The shared secret bytes, as a mathematical value.
    pub closed spec fn secret(&self) -> Seq<u8> {
        self.shared_key@
    }

    /// Perform the X25519 agreement between an own private key and the
    /// peer's public key bytes.
    ///
    /// Relies on ring's `agree_ephemeral`: on success the closure receives
    /// the 32-byte shared secret. The private key is consumed and cannot
    /// be used again.
    #[verifier::external_body]
    pub fn new(
        private_key: ring::agreement::EphemeralPrivateKey,
        public_key: &Vec<u8>,
    ) -> (r: Result<SharedKey, Exception>)
        ensures
            r matches Ok(sk) ==> sk.secret().len() == 32,
            r matches Err(e) ==> e matches Exception::KeyAgreementError,
    {
        let peer = ring::agreement::UnparsedPublicKey::new(
            &ring::agreement::X25519,
            public_key.as_slice(),
        );
        match ring::agreement::agree_ephemeral(private_key, &peer, |key: &[u8]| key.to_vec()) {
            Ok(shared_key) => Ok(SharedKey { shared_key }),
            Err(_) => Err(Exception::KeyAgreementError),
        }
    }

    /// Derive the 16-byte session key from this secret and a salt.
    ///
    /// Relies on `hkdf::Hkdf::<sha2::Sha256>::new` and `expand` with empty
    /// info: a pure function of the secret and the salt, named `hkdf16`.
    /// `expand` cannot fail for a 16-byte output (16 <= 255 * 32).
    #[verifier::external_body]
    pub fn hkdf(&self, salt: &[u8]) -> (r: [u8; 16])
        ensures
            r@ == hkdf16(self.secret(), salt@),
    {
        let kdf = hkdf::Hkdf::<sha2::Sha256>::new(Some(salt), &self.shared_key);
        let mut aes_key = [0u8; 16];
        kdf.expand(&[], &mut aes_key).unwrap();
        aes_key
    }
}

/// Generate a random 16-byte salt, the key length of AES-128-GCM.
pub fn generate_random_salt() -> (r: Result<Vec<u8>, Exception>)
    ensures
        r matches Ok(v) ==> v@.len() == SESSION_KEY_LEN,
        r matches Err(e) ==> e matches Exception::KeyAgreementError,
{
    match random_bytes(SESSION_KEY_LEN) {
        Some(v) => Ok(v),
        None => Err(Exception::KeyAgreementError),
    }
}

} // verus!
